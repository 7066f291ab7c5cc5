//! Reads and writes the replication stream.

use vstd::prelude::*;


use super::messages::{Begin, Commit, Relation, RelationColumn, XLogPayload};
use super::tuple::{
    column_views, read_utf8, Column, ColumnView, Delete, Format, Identifier, Insert, Oid,
    TupleData, Update, UpdateIdentity,
};
use super::wire::{
    be_bytes, be_value, column_bytes, columns_bytes, full_relation, lemma_be_value_bound,
    lemma_pow256, lemma_zero_bound, message_bytes, message_of, old_row, old_row_bytes, pow256,
    read_begin, read_byte, read_column, read_columns, read_commit, read_delete, read_insert,
    read_message, read_number, read_old_row, read_relation, read_relation_column,
    read_relation_columns, read_row, read_tagged_row, read_text, read_update, read_value,
    relation_column, relation_column_bytes, relation_columns_bytes, row_bytes, row_view, signed32,
    signed64, text_bytes, unsigned32, unsigned64, zero_at, Message, RelationColumnView,
};

verus! {

fn to_unsigned64(v: i64) -> (n: u64)
    ensures
        n == unsigned64(v),
{
    if v >= 0 {
        v as u64
    } else {
        (v + i64::MAX + 1) as u64 + 0x8000_0000_0000_0000
    }
}

fn to_signed64(n: u64) -> (v: i64)
    ensures
        v == signed64(n as nat),
{
    if n < 0x8000_0000_0000_0000 {
        n as i64
    } else {
        (n - 0x8000_0000_0000_0000) as i64 + i64::MIN
    }
}

fn to_unsigned32(v: i32) -> (n: u64)
    ensures
        n == unsigned32(v),
{
    if v >= 0 {
        v as u64
    } else {
        (v as i64 + 0x1_0000_0000) as u64
    }
}

fn to_signed32(n: u64) -> (v: i32)
    requires
        n < 0x1_0000_0000,
    ensures
        v == signed32(n as nat),
{
    if n < 0x8000_0000 {
        n as i32
    } else {
        (n as i64 - 0x1_0000_0000) as i32
    }
}

fn push_number(out: &mut Vec<u8>, n: u64, width: usize)
    ensures
        final(out)@ == old(out)@ + be_bytes(n as nat, width as nat),
    decreases width,
{
    if width > 0 {
        push_number(out, n / 256, width - 1);
        out.push((n % 256) as u8);
        assert(out@ =~= old(out)@ + be_bytes(n as nat, width as nat));
    } else {
        assert(out@ =~= old(out)@ + be_bytes(n as nat, width as nat));
    }
}

fn push_slice(out: &mut Vec<u8>, bytes: &[u8])
    ensures
        final(out)@ == old(out)@ + bytes@,
{
    let mut i: usize = 0;
    while i < bytes.len()
        invariant
            i <= bytes.len(),
            out@ == old(out)@ + bytes@.take(i as int),
        decreases bytes.len() - i,
    {
        out.push(bytes[i]);
        assert(bytes@.take(i + 1) =~= bytes@.take(i as int).push(bytes@[i as int]));
        i += 1;
    }
    assert(bytes@.take(bytes@.len() as int) =~= bytes@);
}

fn push_text(out: &mut Vec<u8>, text: &str)
    ensures
        final(out)@ == old(out)@ + text_bytes(text@),
{
    push_slice(out, text.as_bytes());
    out.push(0);
    assert(out@ =~= old(out)@ + text_bytes(text@));
}

fn push_column(out: &mut Vec<u8>, column: &Column)
    ensures
        final(out)@ == old(out)@ + column_bytes(column@),
{
    match column.identifier {
        Identifier::Null => {
            out.push(110);
        },
        Identifier::Toasted => {
            out.push(117);
        },
        Identifier::Format(format) => {
            match format {
                Format::Text => out.push(116),
                Format::Binary => out.push(98),
            }
            push_number(out, column.data.len() as u64, 4);
            push_slice(out, column.data.as_slice());
        },
    }
    assert(out@ =~= old(out)@ + column_bytes(column@));
}

fn push_row(out: &mut Vec<u8>, row: &TupleData)
    ensures
        final(out)@ == old(out)@ + row_bytes(row@),
{
    push_number(out, row.columns.len() as u64, 2);
    let ghost start = out@;
    let mut i: usize = 0;
    assert(out@ =~= start + columns_bytes(row@.take(0)));
    while i < row.columns.len()
        invariant
            i <= row.columns.len(),
            out@ == start + columns_bytes(row@.take(i as int)),
        decreases row.columns.len() - i,
    {
        let ghost before = out@;
        push_column(out, &row.columns[i]);
        proof {
            assert(row@.take(i + 1).drop_last() =~= row@.take(i as int));
            assert(row@.take(i + 1).last() == row.columns@[i as int]@);
            assert(out@ =~= start + columns_bytes(row@.take(i + 1)));
        }
        i += 1;
    }
    assert(row@.take(row@.len() as int) =~= row@);
    assert(out@ =~= old(out)@ + row_bytes(row@));
}

impl Begin {
    /// The message in bytes.
    pub fn to_bytes(&self) -> (out: Vec<u8>)
        ensures
            out@ == message_bytes(Message::Begin(*self)),
    {
        let mut out: Vec<u8> = Vec::new();
        out.push(66);
        push_number(&mut out, to_unsigned64(self.final_transaction_lsn), 8);
        push_number(&mut out, to_unsigned64(self.commit_timestamp), 8);
        push_number(&mut out, to_unsigned32(self.xid), 4);
        assert(out@ =~= message_bytes(Message::Begin(*self)));
        out
    }
}

impl Commit {
    /// The message in bytes.
    pub fn to_bytes(&self) -> (out: Vec<u8>)
        ensures
            out@ == message_bytes(Message::Commit(*self)),
    {
        let mut out: Vec<u8> = Vec::new();
        out.push(67);
        out.push(self.flags);
        push_number(&mut out, to_unsigned64(self.commit_lsn), 8);
        push_number(&mut out, to_unsigned64(self.end_lsn), 8);
        push_number(&mut out, to_unsigned64(self.commit_timestamp), 8);
        assert(out@ =~= message_bytes(Message::Commit(*self)));
        out
    }
}

fn push_relation_column(out: &mut Vec<u8>, column: &RelationColumn)
    ensures
        final(out)@ == old(out)@ + relation_column_bytes(relation_column(*column)),
{
    out.push(column.flag);
    push_text(out, column.name.as_str());
    push_number(out, column.oid.0 as u64, 4);
    push_number(out, to_unsigned32(column.type_modifier), 4);
    assert(out@ =~= old(out)@ + relation_column_bytes(relation_column(*column)));
}

impl Relation {
    /// The message in bytes.
    pub fn to_bytes(&self) -> (out: Vec<u8>)
        ensures
            out@ == message_bytes(Message::Relation(full_relation(*self))),
    {
        let ghost all = full_relation(*self).columns;
        let mut out: Vec<u8> = Vec::new();
        out.push(82);
        assert(out@ =~= seq![82u8]);
        push_number(&mut out, self.oid.0 as u64, 4);
        push_text(&mut out, self.namespace.as_str());
        push_text(&mut out, self.name.as_str());
        let ghost before = out@;
        out.push(self.replica_identity);
        assert(out@ =~= before + seq![self.replica_identity]);
        push_number(&mut out, self.columns.len() as u64, 2);
        let ghost start = out@;
        let mut i: usize = 0;
        assert(out@ =~= start + relation_columns_bytes(all.take(0)));
        while i < self.columns.len()
            invariant
                i <= self.columns.len(),
                all == full_relation(*self).columns,
                out@ == start + relation_columns_bytes(all.take(i as int)),
            decreases self.columns.len() - i,
        {
            push_relation_column(&mut out, &self.columns[i]);
            proof {
                assert(all.take(i + 1).drop_last() =~= all.take(i as int));
                assert(all.take(i + 1).last() == relation_column(self.columns@[i as int]));
                assert(out@ =~= start + relation_columns_bytes(all.take(i + 1)));
            }
            i += 1;
        }
        assert(all.take(all.len() as int) =~= all);
        out
    }
}

impl Insert {
    /// The message in bytes.
    pub fn to_bytes(&self) -> (out: Vec<u8>)
        ensures
            out@ == message_bytes(Message::Insert { oid: self.oid.0, row: self.tuple_data@ }),
    {
        let mut out: Vec<u8> = Vec::new();
        out.push(73);
        push_number(&mut out, self.oid.0 as u64, 4);
        out.push(78);
        push_row(&mut out, &self.tuple_data);
        assert(out@ =~= message_bytes(
            Message::Insert { oid: self.oid.0, row: self.tuple_data@ },
        ));
        out
    }
}

impl Update {
    /// The message in bytes.
    pub fn to_bytes(&self) -> (out: Vec<u8>)
        ensures
            out@ == message_bytes(
                Message::Update {
                    oid: self.oid.0,
                    identity: old_row(self.identity),
                    new: self.new@,
                },
            ),
    {
        let mut out: Vec<u8> = Vec::new();
        out.push(85);
        assert(out@ =~= seq![85u8]);
        push_number(&mut out, self.oid.0 as u64, 4);
        let ghost head = out@;
        match &self.identity {
            UpdateIdentity::Key(row) => {
                out.push(75);
                push_row(&mut out, row);
            },
            UpdateIdentity::Old(row) => {
                out.push(79);
                push_row(&mut out, row);
            },
            UpdateIdentity::Nothing => {},
        }
        assert(out@ =~= head + old_row_bytes(old_row(self.identity)));
        let ghost middle = out@;
        out.push(78);
        assert(out@ =~= middle + seq![78u8]);
        push_row(&mut out, &self.new);
        out
    }
}

impl Delete {
    /// The message in bytes.
    pub fn to_bytes(&self) -> (out: Vec<u8>)
        ensures
            out@ == message_bytes(
                Message::Delete {
                    oid: self.oid.0,
                    key: row_view(self.key),
                    old: row_view(self.old),
                },
            ),
    {
        let mut out: Vec<u8> = Vec::new();
        out.push(68);
        assert(out@ =~= seq![68u8]);
        push_number(&mut out, self.oid.0 as u64, 4);
        match (&self.key, &self.old) {
            (Some(row), _) => {
                out.push(75);
                push_row(&mut out, row);
            },
            (None, Some(row)) => {
                out.push(79);
                push_row(&mut out, row);
            },
            (None, None) => {},
        }
        assert(out@ =~= message_bytes(
            Message::Delete { oid: self.oid.0, key: row_view(self.key), old: row_view(self.old) },
        ));
        out
    }
}

/// Whether reading went as it should: either both found something and stand at
/// the same place behind it, or both found nothing.
spec fn reads<T>(bytes: Seq<u8>, found: Option<T>, at: usize, expected: Option<(T, Seq<u8>)>) -> bool {
    match (found, expected) {
        (Some(v), Some(e)) => v == e.0 && at <= bytes.len() && bytes.skip(at as int) == e.1,
        (None, None) => true,
        _ => false,
    }
}

fn take_byte(bytes: &Vec<u8>, at: &mut usize) -> (out: Option<u8>)
    requires
        *old(at) <= bytes@.len(),
    ensures
        reads(bytes@, out, *final(at), read_byte(bytes@.skip(*old(at) as int))),
        out is Some ==> *final(at) > *old(at),
{
    if *at < bytes.len() {
        let b: u8 = bytes[*at];
        proof {
            assert(bytes@.skip(*old(at) as int).skip(1) =~= bytes@.skip(*old(at) + 1));
        }
        *at = *at + 1;
        Some(b)
    } else {
        None
    }
}

fn take_number(bytes: &Vec<u8>, at: &mut usize, width: usize) -> (out: Option<u64>)
    requires
        *old(at) <= bytes@.len(),
        width <= 8,
    ensures
        match (out, read_number(bytes@.skip(*old(at) as int), width as nat)) {
            (Some(n), Some(e)) => n == e.0 && n < pow256(width as nat) && *final(at)
                <= bytes@.len() && bytes@.skip(*final(at) as int) == e.1,
            (None, None) => true,
            _ => false,
        },
{
    let ghost s = bytes@.skip(*old(at) as int);
    if bytes.len() - *at < width {
        return None;
    }
    let start: usize = *at;
    let mut n: u64 = 0;
    let mut i: usize = 0;
    proof {
        lemma_pow256();
        assert(s.take(0).len() == 0);
    }
    while i < width
        invariant
            i <= width <= 8,
            start + width <= bytes.len(),
            s == bytes@.skip(start as int),
            n == be_value(s.take(i as int)),
        decreases width - i,
    {
        proof {
            lemma_pow256();
            lemma_be_value_bound(s.take(i as int));
            lemma_be_value_bound(s.take(i + 1));
            assert(s.take(i + 1).drop_last() =~= s.take(i as int));
            assert(s.take(i + 1).last() == bytes@[start + i]);
            assert(pow256((i + 1) as nat) <= 0x1_0000_0000_0000_0000);
        }
        n = n * 256 + bytes[start + i] as u64;
        i += 1;
    }
    proof {
        lemma_be_value_bound(s.take(width as int));
        assert(s.skip(width as int) =~= bytes@.skip(start + width));
    }
    *at = start + width;
    Some(n)
}

fn take_slice(bytes: &Vec<u8>, from: usize, len: usize) -> (out: Vec<u8>)
    requires
        from + len <= bytes@.len(),
    ensures
        out@ == bytes@.subrange(from as int, from + len),
{
    let mut out: Vec<u8> = Vec::new();
    let mut i: usize = 0;
    while i < len
        invariant
            i <= len,
            from + len <= bytes.len(),
            out@ == bytes@.subrange(from as int, from + i),
        decreases len - i,
    {
        out.push(bytes[from + i]);
        assert(bytes@.subrange(from as int, from + i + 1) =~= bytes@.subrange(
            from as int,
            from + i,
        ).push(bytes@[from + i]));
        i += 1;
    }
    out
}

fn take_text(bytes: &Vec<u8>, at: &mut usize) -> (out: Option<String>)
    requires
        *old(at) <= bytes@.len(),
    ensures
        match (out, read_text(bytes@.skip(*old(at) as int))) {
            (Some(t), Some(e)) => t@ == e.0 && *final(at) <= bytes@.len() && bytes@.skip(
                *final(at) as int,
            ) == e.1,
            (None, None) => true,
            _ => false,
        },
{
    let ghost s = bytes@.skip(*old(at) as int);
    let start: usize = *at;
    let mut end: usize = start;
    proof {
        lemma_zero_bound(s);
    }
    while end < bytes.len() && bytes[end] != 0
        invariant
            start <= end <= bytes@.len(),
            s == bytes@.skip(start as int),
            end - start <= zero_at(s) <= s.len(),
            forall|i: int| 0 <= i < zero_at(s) ==> s[i] != 0,
            zero_at(s) < s.len() ==> s[zero_at(s) as int] == 0,
        decreases bytes.len() - end,
    {
        assert(s[end - start] == bytes@[end as int]);
        end += 1;
    }
    assert(end - start == zero_at(s)) by {
        if end < bytes@.len() {
            assert(s[end - start] == bytes@[end as int]);
        }
    }
    if end == bytes.len() {
        return None;
    }
    let part: Vec<u8> = take_slice(bytes, start, end - start);
    assert(part@ =~= s.take(end - start));
    assert(s.skip(end - start + 1) =~= bytes@.skip(end + 1));
    *at = end + 1;
    match read_utf8(part.as_slice()) {
        Some(text) => {
            proof {
                vstd::utf8::encode_utf8_decode_utf8(text@);
            }
            Some(text.to_owned())
        },
        None => None,
    }
}

fn take_value(bytes: &Vec<u8>, at: &mut usize, format: Format) -> (out: Option<Column>)
    requires
        *old(at) <= bytes@.len(),
    ensures
        match (out, read_value(bytes@.skip(*old(at) as int), format)) {
            (Some(c), Some(e)) => c@ == e.0 && *final(at) <= bytes@.len() && bytes@.skip(
                *final(at) as int,
            ) == e.1,
            (None, None) => true,
            _ => false,
        },
{
    match take_number(bytes, at, 4) {
        Some(n) => {
            let ghost rest = bytes@.skip(*at as int);
            if n >= 0x8000_0000 || n > (bytes.len() - *at) as u64 {
                return None;
            }
            let len: usize = n as usize;
            let data: Vec<u8> = take_slice(bytes, *at, len);
            assert(data@ =~= rest.take(len as int));
            assert(rest.skip(len as int) =~= bytes@.skip(*at + len));
            *at = *at + len;
            Some(Column { identifier: Identifier::Format(format), len: n as i32, data })
        },
        None => None,
    }
}

fn take_column(bytes: &Vec<u8>, at: &mut usize) -> (out: Option<Column>)
    requires
        *old(at) <= bytes@.len(),
    ensures
        match (out, read_column(bytes@.skip(*old(at) as int))) {
            (Some(c), Some(e)) => c@ == e.0 && *final(at) <= bytes@.len() && bytes@.skip(
                *final(at) as int,
            ) == e.1,
            (None, None) => true,
            _ => false,
        },
{
    match take_byte(bytes, at) {
        Some(kind) => {
            if kind == 110 {
                let out: Column = Column { identifier: Identifier::Null, len: 0, data: Vec::new() };
                assert(out@.data =~= Seq::<u8>::empty());
                Some(out)
            } else if kind == 117 {
                let out: Column = Column {
                    identifier: Identifier::Toasted,
                    len: 0,
                    data: Vec::new(),
                };
                assert(out@.data =~= Seq::<u8>::empty());
                Some(out)
            } else if kind == 116 {
                take_value(bytes, at, Format::Text)
            } else if kind == 98 {
                take_value(bytes, at, Format::Binary)
            } else {
                None
            }
        },
        None => None,
    }
}

proof fn lemma_columns_failure(s: Seq<u8>, n: nat, m: nat)
    requires
        n <= m,
        read_columns(s, n) is None,
    ensures
        read_columns(s, m) is None,
    decreases m,
{
    if n < m {
        lemma_columns_failure(s, n, (m - 1) as nat);
    }
}

fn take_row(bytes: &Vec<u8>, at: &mut usize) -> (out: Option<TupleData>)
    requires
        *old(at) <= bytes@.len(),
    ensures
        match (out, read_row(bytes@.skip(*old(at) as int))) {
            (Some(t), Some(e)) => t@ == e.0 && *final(at) <= bytes@.len() && bytes@.skip(
                *final(at) as int,
            ) == e.1,
            (None, None) => true,
            _ => false,
        },
{
    let count: u64 = match take_number(bytes, at, 2) {
        Some(n) => n,
        None => {
            return None;
        },
    };
    let ghost s = bytes@.skip(*at as int);
    let mut columns: Vec<Column> = Vec::new();
    let mut i: u64 = 0;
    assert(column_views(columns@) =~= Seq::<ColumnView>::empty());
    while i < count
        invariant
            i <= count,
            *at <= bytes@.len(),
            read_row(bytes@.skip(*old(at) as int)) == read_columns(s, count as nat),
            read_columns(s, i as nat) == Some((column_views(columns@), bytes@.skip(*at as int))),
        decreases count - i,
    {
        let ghost before = column_views(columns@);
        match take_column(bytes, at) {
            Some(c) => {
                columns.push(c);
                assert(column_views(columns@) =~= before.push(c@));
            },
            None => {
                proof {
                    lemma_columns_failure(s, (i + 1) as nat, count as nat);
                }
                return None;
            },
        }
        i += 1;
    }
    Some(TupleData { columns })
}

fn take_tagged_row(bytes: &Vec<u8>, at: &mut usize, tag: u8) -> (out: Option<TupleData>)
    requires
        *old(at) <= bytes@.len(),
    ensures
        match (out, read_tagged_row(bytes@.skip(*old(at) as int), tag)) {
            (Some(t), Some(e)) => t@ == e.0 && *final(at) <= bytes@.len() && bytes@.skip(
                *final(at) as int,
            ) == e.1,
            (None, None) => true,
            _ => false,
        },
{
    match take_byte(bytes, at) {
        Some(t) => {
            if t == tag {
                take_row(bytes, at)
            } else {
                None
            }
        },
        None => None,
    }
}

fn take_relation_column(bytes: &Vec<u8>, at: &mut usize) -> (out: Option<RelationColumn>)
    requires
        *old(at) <= bytes@.len(),
    ensures
        match (out, read_relation_column(bytes@.skip(*old(at) as int))) {
            (Some(c), Some(e)) => relation_column(c) == e.0 && *final(at) <= bytes@.len()
                && bytes@.skip(*final(at) as int) == e.1,
            (None, None) => true,
            _ => false,
        },
{
    proof {
        lemma_pow256();
    }
    let flag: u8 = match take_byte(bytes, at) {
        Some(b) => b,
        None => {
            return None;
        },
    };
    let name: String = match take_text(bytes, at) {
        Some(t) => t,
        None => {
            return None;
        },
    };
    let oid: u64 = match take_number(bytes, at, 4) {
        Some(n) => n,
        None => {
            return None;
        },
    };
    let modifier: u64 = match take_number(bytes, at, 4) {
        Some(n) => n,
        None => {
            return None;
        },
    };
    Some(
        RelationColumn {
            flag,
            name,
            oid: Oid(oid as u32),
            type_modifier: to_signed32(modifier),
        },
    )
}

proof fn lemma_relation_columns_failure(s: Seq<u8>, n: nat, m: nat)
    requires
        n <= m,
        read_relation_columns(s, n) is None,
    ensures
        read_relation_columns(s, m) is None,
    decreases m,
{
    if n < m {
        lemma_relation_columns_failure(s, n, (m - 1) as nat);
    }
}

/// The contents of the columns of a relation.
spec fn relation_column_views(v: Seq<RelationColumn>) -> Seq<RelationColumnView> {
    v.map_values(|c: RelationColumn| relation_column(c))
}

fn take_relation_columns(bytes: &Vec<u8>, at: &mut usize, count: u64) -> (out: Option<
    Vec<RelationColumn>,
>)
    requires
        *old(at) <= bytes@.len(),
    ensures
        match (out, read_relation_columns(bytes@.skip(*old(at) as int), count as nat)) {
            (Some(v), Some(e)) => relation_column_views(v@) == e.0,
            (None, None) => true,
            _ => false,
        },
{
    let ghost s = bytes@.skip(*at as int);
    let mut columns: Vec<RelationColumn> = Vec::new();
    let mut i: u64 = 0;
    assert(relation_column_views(columns@) =~= Seq::<RelationColumnView>::empty());
    while i < count
        invariant
            i <= count,
            *at <= bytes@.len(),
            s == bytes@.skip(*old(at) as int),
            read_relation_columns(s, i as nat) == Some(
                (relation_column_views(columns@), bytes@.skip(*at as int)),
            ),
        decreases count - i,
    {
        let ghost before = relation_column_views(columns@);
        match take_relation_column(bytes, at) {
            Some(c) => {
                columns.push(c);
                assert(relation_column_views(columns@) =~= before.push(relation_column(c)));
            },
            None => {
                proof {
                    lemma_relation_columns_failure(s, (i + 1) as nat, count as nat);
                }
                return None;
            },
        }
        i += 1;
    }
    Some(columns)
}

/// Whether a message was read as it should.
spec fn agrees(found: Option<XLogPayload>, expected: Option<Message>) -> bool {
    match (found, expected) {
        (Some(p), Some(m)) => message_of(p) == m,
        (None, None) => true,
        _ => false,
    }
}

fn take_begin(bytes: &Vec<u8>, at: &mut usize) -> (out: Option<XLogPayload>)
    requires
        *old(at) <= bytes@.len(),
    ensures
        agrees(out, read_begin(bytes@.skip(*old(at) as int))),
{
    proof {
        lemma_pow256();
    }
    let lsn: u64 = match take_number(bytes, at, 8) {
        Some(n) => n,
        None => {
            return None;
        },
    };
    let timestamp: u64 = match take_number(bytes, at, 8) {
        Some(n) => n,
        None => {
            return None;
        },
    };
    let xid: u64 = match take_number(bytes, at, 4) {
        Some(n) => n,
        None => {
            return None;
        },
    };
    Some(
        XLogPayload::Begin(
            Begin {
                final_transaction_lsn: to_signed64(lsn),
                commit_timestamp: to_signed64(timestamp),
                xid: to_signed32(xid),
            },
        ),
    )
}

fn take_commit(bytes: &Vec<u8>, at: &mut usize) -> (out: Option<XLogPayload>)
    requires
        *old(at) <= bytes@.len(),
    ensures
        agrees(out, read_commit(bytes@.skip(*old(at) as int))),
{
    let flags: u8 = match take_byte(bytes, at) {
        Some(b) => b,
        None => {
            return None;
        },
    };
    let commit_lsn: u64 = match take_number(bytes, at, 8) {
        Some(n) => n,
        None => {
            return None;
        },
    };
    let end_lsn: u64 = match take_number(bytes, at, 8) {
        Some(n) => n,
        None => {
            return None;
        },
    };
    let timestamp: u64 = match take_number(bytes, at, 8) {
        Some(n) => n,
        None => {
            return None;
        },
    };
    Some(
        XLogPayload::Commit(
            Commit {
                flags,
                commit_lsn: to_signed64(commit_lsn),
                end_lsn: to_signed64(end_lsn),
                commit_timestamp: to_signed64(timestamp),
            },
        ),
    )
}

fn take_relation(bytes: &Vec<u8>, at: &mut usize) -> (out: Option<XLogPayload>)
    requires
        *old(at) <= bytes@.len(),
    ensures
        agrees(out, read_relation(bytes@.skip(*old(at) as int))),
{
    proof {
        lemma_pow256();
    }
    let oid: u64 = match take_number(bytes, at, 4) {
        Some(n) => n,
        None => {
            return None;
        },
    };
    let namespace: String = match take_text(bytes, at) {
        Some(t) => t,
        None => {
            return None;
        },
    };
    let name: String = match take_text(bytes, at) {
        Some(t) => t,
        None => {
            return None;
        },
    };
    let replica_identity: u8 = match take_byte(bytes, at) {
        Some(b) => b,
        None => {
            return None;
        },
    };
    let count: u64 = match take_number(bytes, at, 2) {
        Some(n) => n,
        None => {
            return None;
        },
    };
    match take_relation_columns(bytes, at, count) {
        Some(columns) => {
            let relation: Relation = Relation {
                oid: Oid(oid as u32),
                namespace,
                name,
                replica_identity,
                columns,
            };
            assert(full_relation(relation).columns =~= relation_column_views(columns@));
            Some(XLogPayload::Relation(relation))
        },
        None => None,
    }
}

fn take_insert(bytes: &Vec<u8>, at: &mut usize) -> (out: Option<XLogPayload>)
    requires
        *old(at) <= bytes@.len(),
    ensures
        agrees(out, read_insert(bytes@.skip(*old(at) as int))),
{
    proof {
        lemma_pow256();
    }
    let oid: u64 = match take_number(bytes, at, 4) {
        Some(n) => n,
        None => {
            return None;
        },
    };
    match take_tagged_row(bytes, at, 78) {
        Some(tuple_data) => Some(
            XLogPayload::Insert(Insert { oid: Oid(oid as u32), tuple_data }),
        ),
        None => None,
    }
}

fn take_old_row(bytes: &Vec<u8>, at: &mut usize) -> (out: UpdateIdentity)
    requires
        *old(at) <= bytes@.len(),
    ensures
        ({
            let expected = read_old_row(bytes@.skip(*old(at) as int));
            &&& expected matches Some(e) && old_row(out) == e.0 && *final(at) <= bytes@.len()
                && bytes@.skip(*final(at) as int) == e.1
        }),
{
    let start: usize = *at;
    match take_tagged_row(bytes, at, 75) {
        Some(row) => {
            return UpdateIdentity::Key(row);
        },
        None => {},
    }
    *at = start;
    match take_tagged_row(bytes, at, 79) {
        Some(row) => {
            return UpdateIdentity::Old(row);
        },
        None => {},
    }
    *at = start;
    UpdateIdentity::Nothing
}

fn take_update(bytes: &Vec<u8>, at: &mut usize) -> (out: Option<XLogPayload>)
    requires
        *old(at) <= bytes@.len(),
    ensures
        agrees(out, read_update(bytes@.skip(*old(at) as int))),
{
    proof {
        lemma_pow256();
    }
    let oid: u64 = match take_number(bytes, at, 4) {
        Some(n) => n,
        None => {
            return None;
        },
    };
    let identity: UpdateIdentity = take_old_row(bytes, at);
    match take_tagged_row(bytes, at, 78) {
        Some(new) => Some(XLogPayload::Update(Update { oid: Oid(oid as u32), identity, new })),
        None => None,
    }
}

fn take_delete(bytes: &Vec<u8>, at: &mut usize) -> (out: Option<XLogPayload>)
    requires
        *old(at) <= bytes@.len(),
    ensures
        agrees(out, read_delete(bytes@.skip(*old(at) as int))),
{
    proof {
        lemma_pow256();
    }
    let oid: u64 = match take_number(bytes, at, 4) {
        Some(n) => n,
        None => {
            return None;
        },
    };
    let start: usize = *at;
    match take_tagged_row(bytes, at, 75) {
        Some(row) => {
            return Some(
                XLogPayload::Delete(Delete { oid: Oid(oid as u32), key: Some(row), old: None }),
            );
        },
        None => {},
    }
    *at = start;
    match take_tagged_row(bytes, at, 79) {
        Some(row) => Some(
            XLogPayload::Delete(Delete { oid: Oid(oid as u32), key: None, old: Some(row) }),
        ),
        None => None,
    }
}

/// The message in some bytes.
pub fn decode(bytes: &Vec<u8>) -> (out: Option<XLogPayload>)
    ensures
        match (out, read_message(bytes@)) {
            (Some(p), Some(m)) => message_of(p) == m,
            (None, None) => true,
            _ => false,
        },
{
    let mut at: usize = 0;
    assert(bytes@.skip(0) =~= bytes@);
    match take_byte(bytes, &mut at) {
        Some(tag) => {
            if tag == 66 {
                take_begin(bytes, &mut at)
            } else if tag == 67 {
                take_commit(bytes, &mut at)
            } else if tag == 82 {
                take_relation(bytes, &mut at)
            } else if tag == 73 {
                take_insert(bytes, &mut at)
            } else if tag == 85 {
                take_update(bytes, &mut at)
            } else if tag == 68 {
                take_delete(bytes, &mut at)
            } else if tag == 84 || tag == 89 || tag == 79 || tag == 77 {
                Some(XLogPayload::Other)
            } else {
                None
            }
        },
        None => None,
    }
}

/// A piece of the write-ahead log.
#[derive(Debug)]
pub struct XLogData {
    pub starting_point: i64,
    pub current_end: i64,
    pub system_clock: i64,
    pub bytes: Vec<u8>,
}

/// The contents of an [`XLogData`].
#[verifier::ext_equal]
pub struct XLogDataView {
    pub starting_point: i64,
    pub current_end: i64,
    pub system_clock: i64,
    pub bytes: Seq<u8>,
}

impl View for XLogData {
    type V = XLogDataView;

    open spec fn view(&self) -> XLogDataView {
        XLogDataView {
            starting_point: self.starting_point,
            current_end: self.current_end,
            system_clock: self.system_clock,
            bytes: self.bytes@,
        }
    }
}

/// A piece of the log in bytes.
pub open spec fn xlog_bytes(x: XLogDataView) -> Seq<u8> {
    seq![119u8] + be_bytes(unsigned64(x.starting_point), 8) + be_bytes(
        unsigned64(x.current_end),
        8,
    ) + be_bytes(unsigned64(x.system_clock), 8) + x.bytes
}

/// The piece of the log in some bytes.
pub open spec fn read_xlog(s: Seq<u8>) -> Option<XLogDataView> {
    match read_byte(s) {
        Some((tag, s1)) => if tag == 119 {
            match read_number(s1, 8) {
                Some((start, s2)) => match read_number(s2, 8) {
                    Some((end, s3)) => match read_number(s3, 8) {
                        Some((clock, s4)) => Some(
                            XLogDataView {
                                starting_point: signed64(start),
                                current_end: signed64(end),
                                system_clock: signed64(clock),
                                bytes: s4,
                            },
                        ),
                        None => None,
                    },
                    None => None,
                },
                None => None,
            }
        } else {
            None
        },
        None => None,
    }
}

/// A piece of the log that was written is read back as it was.
pub proof fn law_log_is_read_back(x: XLogDataView)
    ensures
        read_xlog(xlog_bytes(x)) == Some(x),
{
    lemma_pow256();
    let s3 = be_bytes(unsigned64(x.system_clock), 8) + x.bytes;
    let s2 = be_bytes(unsigned64(x.current_end), 8) + s3;
    let s1 = be_bytes(unsigned64(x.starting_point), 8) + s2;
    let all = xlog_bytes(x);
    assert(all =~= seq![119u8] + s1);
    assert(all.skip(1) =~= s1);
    super::wire::lemma_number(unsigned64(x.starting_point), 8, s2);
    super::wire::lemma_number(unsigned64(x.current_end), 8, s3);
    super::wire::lemma_number(unsigned64(x.system_clock), 8, x.bytes);
}

impl XLogData {
    /// The piece in bytes.
    pub fn to_bytes(&self) -> (out: Vec<u8>)
        ensures
            out@ == xlog_bytes(self@),
    {
        let mut out: Vec<u8> = Vec::new();
        out.push(119);
        push_number(&mut out, to_unsigned64(self.starting_point), 8);
        push_number(&mut out, to_unsigned64(self.current_end), 8);
        push_number(&mut out, to_unsigned64(self.system_clock), 8);
        push_slice(&mut out, self.bytes.as_slice());
        assert(out@ =~= xlog_bytes(self@));
        out
    }

    /// The message in the piece.
    pub fn payload(&self) -> (out: Option<XLogPayload>)
        ensures
            match (out, read_message(self@.bytes)) {
                (Some(p), Some(m)) => message_of(p) == m,
                (None, None) => true,
                _ => false,
            },
    {
        decode(&self.bytes)
    }

    /// The size of the message in the piece.
    pub fn len(&self) -> (out: usize)
        ensures
            out == self@.bytes.len(),
    {
        self.bytes.len()
    }
}

/// A sign of life of the source.
#[derive(Debug, Clone, Copy, PartialEq, Eq, Structural)]
pub struct KeepAlive {
    /// How far the source has got.
    pub wal_end: i64,
    pub system_clock: i64,
    /// Whether an answer is asked for.
    pub reply: u8,
}

impl KeepAlive {
    /// Whether an answer is asked for.
    pub fn reply(&self) -> (b: bool)
        ensures
            b == (self.reply == 1),
    {
        self.reply == 1
    }
}

/// The sign of life in some bytes.
pub open spec fn read_keepalive(s: Seq<u8>) -> Option<KeepAlive> {
    match read_byte(s) {
        Some((tag, s1)) => if tag == 107 {
            match read_number(s1, 8) {
                Some((end, s2)) => match read_number(s2, 8) {
                    Some((clock, s3)) => match read_byte(s3) {
                        Some((reply, _)) => Some(
                            KeepAlive {
                                wal_end: signed64(end),
                                system_clock: signed64(clock),
                                reply,
                            },
                        ),
                        None => None,
                    },
                    None => None,
                },
                None => None,
            }
        } else {
            None
        },
        None => None,
    }
}

/// A message of the copy protocol.
#[derive(Debug)]
pub struct CopyData {
    pub data: Vec<u8>,
}

impl CopyData {
    /// A message with the given bytes.
    pub fn new(data: &Vec<u8>) -> (out: CopyData)
        ensures
            out.data@ == data@,
    {
        CopyData { data: super::tuple::copy_bytes(data) }
    }

    /// The piece of the log in the message, where it is one.
    pub fn xlog_data(&self) -> (out: Option<XLogData>)
        ensures
            match (out, read_xlog(self.data@)) {
                (Some(x), Some(e)) => x@ == e,
                (None, None) => true,
                _ => false,
            },
    {
        let mut at: usize = 0;
        assert(self.data@.skip(0) =~= self.data@);
        match take_byte(&self.data, &mut at) {
            Some(tag) => {
                if tag != 119 {
                    return None;
                }
            },
            None => {
                return None;
            },
        }
        let start: u64 = match take_number(&self.data, &mut at, 8) {
            Some(n) => n,
            None => {
                return None;
            },
        };
        let end: u64 = match take_number(&self.data, &mut at, 8) {
            Some(n) => n,
            None => {
                return None;
            },
        };
        let clock: u64 = match take_number(&self.data, &mut at, 8) {
            Some(n) => n,
            None => {
                return None;
            },
        };
        let bytes: Vec<u8> = take_slice(&self.data, at, self.data.len() - at);
        assert(bytes@ =~= self.data@.skip(at as int));
        Some(
            XLogData {
                starting_point: to_signed64(start),
                current_end: to_signed64(end),
                system_clock: to_signed64(clock),
                bytes,
            },
        )
    }

    /// The sign of life in the message, where it is one.
    pub fn replication_meta(&self) -> (out: Option<KeepAlive>)
        ensures
            out == read_keepalive(self.data@),
    {
        let mut at: usize = 0;
        assert(self.data@.skip(0) =~= self.data@);
        match take_byte(&self.data, &mut at) {
            Some(tag) => {
                if tag != 107 {
                    return None;
                }
            },
            None => {
                return None;
            },
        }
        let end: u64 = match take_number(&self.data, &mut at, 8) {
            Some(n) => n,
            None => {
                return None;
            },
        };
        let clock: u64 = match take_number(&self.data, &mut at, 8) {
            Some(n) => n,
            None => {
                return None;
            },
        };
        match take_byte(&self.data, &mut at) {
            Some(reply) => Some(
                KeepAlive {
                    wal_end: to_signed64(end),
                    system_clock: to_signed64(clock),
                    reply,
                },
            ),
            None => None,
        }
    }
}

} // verus!
