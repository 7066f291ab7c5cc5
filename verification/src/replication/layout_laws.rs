//! Where the fields of a message stand among its bytes.

use vstd::prelude::*;

use super::codec::{read_keepalive, xlog_bytes, XLogDataView};
use super::messages::{Begin, Commit};
use super::tuple::{ColumnView, Format, Identifier};
use super::wire::{
    be_bytes, be_value, column_bytes, columns_bytes, lemma_be_round_trip, lemma_be_value_bound,
    lemma_pow256, message_bytes, pow256, read_message, row_bytes, text_bytes, unsigned32,
    unsigned64, FullRelation, Message, OldRow,
};

verus! {

/// The first byte of a number counts most: it is read from left to right.
pub proof fn law_numbers_are_read_from_the_left(s: Seq<u8>)
    ensures
        s.len() == 2 ==> be_value(s) == s[0] * 0x100 + s[1],
        s.len() == 4 ==> be_value(s) == s[0] * 0x100_0000 + s[1] * 0x1_0000 + s[2] * 0x100 + s[3],
        s.len() == 8 ==> be_value(s) == s[0] * 0x100_0000_0000_0000 + s[1] * 0x1_0000_0000_0000
            + s[2] * 0x100_0000_0000 + s[3] * 0x1_0000_0000 + s[4] * 0x100_0000 + s[5] * 0x1_0000
            + s[6] * 0x100 + s[7],
{
    reveal_with_fuel(be_value, 9);
    if s.len() >= 2 {
        let a = s.drop_last();
        let b = a.drop_last();
        if s.len() == 2 {
            assert(b =~= Seq::<u8>::empty());
        } else if s.len() >= 4 {
            let c = b.drop_last();
            let d = c.drop_last();
            if s.len() == 4 {
                assert(d =~= Seq::<u8>::empty());
            } else if s.len() == 8 {
                let e = d.drop_last();
                let f = e.drop_last();
                let g = f.drop_last();
                let h = g.drop_last();
                assert(h =~= Seq::<u8>::empty());
            }
        }
    }
}

/// A signed number is written as its two's complement.
pub proof fn law_negative_numbers_wrap(a: i64, b: i32)
    ensures
        unsigned64(a) == if a >= 0 {
            a as int
        } else {
            0x1_0000_0000_0000_0000 + a
        },
        unsigned32(b) == if b >= 0 {
            b as int
        } else {
            0x1_0000_0000 + b
        },
{
}

/// Whether the bytes at a place are a number.
pub open spec fn number_at(s: Seq<u8>, at: int, width: nat, n: nat) -> bool {
    0 <= at && at + width <= s.len() && be_value(s.subrange(at, at + width)) == n
}

proof fn lemma_number_at(before: Seq<u8>, n: nat, width: nat, after: Seq<u8>)
    requires
        n < pow256(width),
    ensures
        number_at(before + be_bytes(n, width) + after, before.len() as int, width, n),
        be_bytes(n, width).len() == width,
{
    lemma_be_round_trip(n, width);
    let s = before + be_bytes(n, width) + after;
    assert(s.subrange(before.len() as int, before.len() as int + width) =~= be_bytes(n, width));
}

/// A transaction starts with its end, its time and its number.
pub proof fn law_begin_layout(b: Begin)
    ensures
        ({
            let s = message_bytes(Message::Begin(b));
            &&& s.len() == 21
            &&& s[0] == 66
            &&& number_at(s, 1, 8, unsigned64(b.final_transaction_lsn))
            &&& number_at(s, 9, 8, unsigned64(b.commit_timestamp))
            &&& number_at(s, 17, 4, unsigned32(b.xid))
        }),
{
    lemma_pow256();
    let s = message_bytes(Message::Begin(b));
    let x = be_bytes(unsigned64(b.final_transaction_lsn), 8);
    let y = be_bytes(unsigned64(b.commit_timestamp), 8);
    let z = be_bytes(unsigned32(b.xid), 4);
    let tag = seq![66u8];
    lemma_number_at(tag, unsigned64(b.final_transaction_lsn), 8, y + z);
    lemma_number_at(tag + x, unsigned64(b.commit_timestamp), 8, z);
    lemma_number_at(tag + x + y, unsigned32(b.xid), 4, Seq::empty());
    assert(s =~= tag + x + (y + z));
    assert(s =~= tag + x + y + z);
    assert(s =~= tag + x + y + z + Seq::<u8>::empty());
}

/// A transaction ends with its flags, its position, where it ends, and its time.
pub proof fn law_commit_layout(c: Commit)
    ensures
        ({
            let s = message_bytes(Message::Commit(c));
            &&& s.len() == 26
            &&& s[0] == 67
            &&& s[1] == c.flags
            &&& number_at(s, 2, 8, unsigned64(c.commit_lsn))
            &&& number_at(s, 10, 8, unsigned64(c.end_lsn))
            &&& number_at(s, 18, 8, unsigned64(c.commit_timestamp))
        }),
{
    lemma_pow256();
    let s = message_bytes(Message::Commit(c));
    let x = be_bytes(unsigned64(c.commit_lsn), 8);
    let y = be_bytes(unsigned64(c.end_lsn), 8);
    let z = be_bytes(unsigned64(c.commit_timestamp), 8);
    let tag = seq![67u8] + seq![c.flags];
    lemma_number_at(tag, unsigned64(c.commit_lsn), 8, y + z);
    lemma_number_at(tag + x, unsigned64(c.end_lsn), 8, z);
    lemma_number_at(tag + x + y, unsigned64(c.commit_timestamp), 8, Seq::empty());
    assert(s =~= tag + x + (y + z));
    assert(s =~= tag + x + y + z);
    assert(s =~= tag + x + y + z + Seq::<u8>::empty());
}

/// A value stands behind the letter of its kind and its length. One that is NULL, or
/// was not sent, is its letter alone.
pub proof fn law_column_layout(c: ColumnView)
    requires
        c.data.len() < 0x1_0000_0000,
    ensures
        ({
            let s = column_bytes(c);
            &&& c.identifier is Null ==> s == seq![110u8]
            &&& c.identifier is Toasted ==> s == seq![117u8]
            &&& c.identifier matches Identifier::Format(format) ==> {
                &&& s.len() == 5 + c.data.len()
                &&& s[0] == (if format == Format::Text {
                    116u8
                } else {
                    98u8
                })
                &&& number_at(s, 1, 4, c.data.len())
                &&& s.skip(5) == c.data
            }
        }),
{
    lemma_pow256();
    if let Identifier::Format(format) = c.identifier {
        let letter = if format == Format::Text {
            seq![116u8]
        } else {
            seq![98u8]
        };
        lemma_number_at(letter, c.data.len(), 4, c.data);
        assert(column_bytes(c) == letter + be_bytes(c.data.len(), 4) + c.data);
        assert(column_bytes(c).skip(5) =~= c.data);
    }
}

/// A row is the number of its columns, and then the columns.
pub proof fn law_row_layout(row: Seq<ColumnView>, c: ColumnView)
    requires
        row.len() < 0x1_0000,
    ensures
        number_at(row_bytes(row), 0, 2, row.len()),
        row_bytes(row).skip(2) == columns_bytes(row),
        columns_bytes(row.push(c)) == columns_bytes(row) + column_bytes(c),
        columns_bytes(Seq::empty()) == Seq::<u8>::empty(),
{
    lemma_pow256();
    lemma_number_at(Seq::empty(), row.len(), 2, columns_bytes(row));
    assert(Seq::<u8>::empty() + be_bytes(row.len(), 2) =~= be_bytes(row.len(), 2));
    assert(row_bytes(row).skip(2) =~= columns_bytes(row));
    assert(row.push(c).drop_last() =~= row);
}

/// A change starts with its letter and its table. The new row is behind an `N`, a key
/// behind a `K`, and a whole row before the change behind an `O`.
pub proof fn law_change_layout(oid: u32, key: Seq<ColumnView>, new: Seq<ColumnView>)
    ensures
        ({
            let insert = message_bytes(Message::Insert { oid, row: new });
            let plain = message_bytes(Message::Update { oid, identity: OldRow::Nothing, new });
            let by_key = message_bytes(Message::Update { oid, identity: OldRow::Key(key), new });
            let by_old = message_bytes(Message::Update { oid, identity: OldRow::Old(key), new });
            let n = row_bytes(key).len() as int;
            &&& insert.len() >= 6 && insert[0] == 73 && number_at(insert, 1, 4, oid as nat)
                && insert[5] == 78 && insert.skip(6) == row_bytes(new)
            &&& plain.len() >= 6 && plain[0] == 85 && number_at(plain, 1, 4, oid as nat)
                && plain[5] == 78 && plain.skip(6) == row_bytes(new)
            &&& by_key.len() >= 7 + n && by_key[0] == 85 && number_at(by_key, 1, 4, oid as nat)
                && by_key[5] == 75 && by_key.subrange(6, 6 + n) == row_bytes(key) && by_key[6 + n]
                == 78 && by_key.skip(7 + n) == row_bytes(new)
            &&& by_old.len() >= 7 + n && by_old[0] == 85 && number_at(by_old, 1, 4, oid as nat)
                && by_old[5] == 79 && by_old.subrange(6, 6 + n) == row_bytes(key) && by_old[6 + n]
                == 78 && by_old.skip(7 + n) == row_bytes(new)
        }),
{
    lemma_pow256();
    let o = be_bytes(oid as nat, 4);
    let insert = message_bytes(Message::Insert { oid, row: new });
    let i = seq![73u8];
    lemma_number_at(i, oid as nat, 4, seq![78u8] + row_bytes(new));
    assert(insert =~= i + o + (seq![78u8] + row_bytes(new)));
    assert(insert.skip(6) =~= row_bytes(new));
    let u = seq![85u8];
    let plain = message_bytes(Message::Update { oid, identity: OldRow::Nothing, new });
    lemma_number_at(u, oid as nat, 4, seq![78u8] + row_bytes(new));
    assert(plain =~= u + o + (seq![78u8] + row_bytes(new)));
    assert(plain.skip(6) =~= row_bytes(new));
    let n = row_bytes(key).len() as int;
    let by_key = message_bytes(Message::Update { oid, identity: OldRow::Key(key), new });
    let rest = seq![75u8] + row_bytes(key) + seq![78u8] + row_bytes(new);
    lemma_number_at(u, oid as nat, 4, rest);
    assert(by_key =~= u + o + rest);
    assert(by_key.subrange(6, 6 + n) =~= row_bytes(key));
    assert(by_key.skip(7 + n) =~= row_bytes(new));
    let by_old = message_bytes(Message::Update { oid, identity: OldRow::Old(key), new });
    let rest = seq![79u8] + row_bytes(key) + seq![78u8] + row_bytes(new);
    lemma_number_at(u, oid as nat, 4, rest);
    assert(by_old =~= u + o + rest);
    assert(by_old.subrange(6, 6 + n) =~= row_bytes(key));
    assert(by_old.skip(7 + n) =~= row_bytes(new));
}

/// A deleted row starts with its letter and its table; what it is found by is behind a
/// `K` or an `O`.
pub proof fn law_delete_layout(oid: u32, row: Seq<ColumnView>)
    ensures
        ({
            let by_key = message_bytes(Message::Delete { oid, key: Some(row), old: None });
            let by_old = message_bytes(Message::Delete { oid, key: None, old: Some(row) });
            &&& by_key.len() >= 6 && by_key[0] == 68 && number_at(by_key, 1, 4, oid as nat)
                && by_key[5] == 75 && by_key.skip(6) == row_bytes(row)
            &&& by_old.len() >= 6 && by_old[0] == 68 && number_at(by_old, 1, 4, oid as nat)
                && by_old[5] == 79 && by_old.skip(6) == row_bytes(row)
        }),
{
    lemma_pow256();
    let o = be_bytes(oid as nat, 4);
    let d = seq![68u8];
    let by_key = message_bytes(Message::Delete { oid, key: Some(row), old: None });
    lemma_number_at(d, oid as nat, 4, seq![75u8] + row_bytes(row));
    assert(by_key =~= d + o + (seq![75u8] + row_bytes(row)));
    assert(by_key.skip(6) =~= row_bytes(row));
    let by_old = message_bytes(Message::Delete { oid, key: None, old: Some(row) });
    lemma_number_at(d, oid as nat, 4, seq![79u8] + row_bytes(row));
    assert(by_old =~= d + o + (seq![79u8] + row_bytes(row)));
    assert(by_old.skip(6) =~= row_bytes(row));
}

/// A table is announced by its letter and its number, then its schema and its name,
/// each up to a zero.
pub proof fn law_relation_layout(r: FullRelation)
    ensures
        ({
            let s = message_bytes(Message::Relation(r));
            let a = text_bytes(r.namespace).len() as int;
            let b = text_bytes(r.name).len() as int;
            &&& s.len() >= 6 + a + b
            &&& s[0] == 82
            &&& number_at(s, 1, 4, r.oid as nat)
            &&& s.subrange(5, 5 + a) == text_bytes(r.namespace)
            &&& s.subrange(5 + a, 5 + a + b) == text_bytes(r.name)
            &&& s[5 + a + b] == r.replica_identity
        }),
{
    lemma_pow256();
    let s = message_bytes(Message::Relation(r));
    let o = be_bytes(r.oid as nat, 4);
    let x = text_bytes(r.namespace);
    let y = text_bytes(r.name);
    let rest = x + y + seq![r.replica_identity] + be_bytes(r.columns.len(), 2)
        + super::wire::relation_columns_bytes(r.columns);
    lemma_number_at(seq![82u8], r.oid as nat, 4, rest);
    assert(s =~= seq![82u8] + o + rest);
    assert(s.subrange(5, 5 + x.len() as int) =~= x);
    assert(s.subrange(5 + x.len() as int, 5 + x.len() as int + y.len()) =~= y);
}

/// Part of the log stands behind a `w`, where it starts, where the log ends, and the
/// time.
pub proof fn law_log_layout(x: XLogDataView)
    ensures
        ({
            let s = xlog_bytes(x);
            &&& s.len() == 25 + x.bytes.len()
            &&& s[0] == 119
            &&& number_at(s, 1, 8, unsigned64(x.starting_point))
            &&& number_at(s, 9, 8, unsigned64(x.current_end))
            &&& number_at(s, 17, 8, unsigned64(x.system_clock))
            &&& s.skip(25) == x.bytes
        }),
{
    lemma_pow256();
    let s = xlog_bytes(x);
    let a = be_bytes(unsigned64(x.starting_point), 8);
    let b = be_bytes(unsigned64(x.current_end), 8);
    let c = be_bytes(unsigned64(x.system_clock), 8);
    let w = seq![119u8];
    lemma_number_at(w, unsigned64(x.starting_point), 8, b + c + x.bytes);
    lemma_number_at(w + a, unsigned64(x.current_end), 8, c + x.bytes);
    lemma_number_at(w + a + b, unsigned64(x.system_clock), 8, x.bytes);
    assert(s =~= w + a + (b + c + x.bytes));
    assert(s =~= w + a + b + (c + x.bytes));
    assert(s =~= w + a + b + c + x.bytes);
    assert(s.skip(25) =~= x.bytes);
}

/// A sign of life stands behind a `k`: where the log ends, the time, and whether an
/// answer is asked for. Anything shorter, or behind another letter, is none.
pub proof fn law_signs_of_life_are_read(s: Seq<u8>)
    ensures
        read_keepalive(s) is Some <==> s.len() >= 18 && s[0] == 107,
        read_keepalive(s) matches Some(k) ==> {
            &&& number_at(s, 1, 8, unsigned64(k.wal_end))
            &&& number_at(s, 9, 8, unsigned64(k.system_clock))
            &&& k.reply == s[17]
        },
{
    lemma_pow256();
    if s.len() >= 18 {
        assert(s.skip(1).take(8) =~= s.subrange(1, 9));
        assert(s.skip(1).skip(8).take(8) =~= s.subrange(9, 17));
        assert(s.skip(1).skip(8).skip(8)[0] == s[17]);
        lemma_be_value_bound(s.subrange(1, 9));
        lemma_be_value_bound(s.subrange(9, 17));
    }
}

/// What is no message: nothing at all, a letter that stands for none, or the start of a
/// transaction or its end cut short. The kinds that need no handling are read as such.
pub proof fn law_broken_messages_are_not_read(s: Seq<u8>)
    ensures
        s.len() == 0 ==> read_message(s) is None,
        s.len() > 0 && s[0] == 66 ==> (read_message(s) is Some <==> s.len() >= 21),
        s.len() > 0 && s[0] == 67 ==> (read_message(s) is Some <==> s.len() >= 26),
        s.len() > 0 && (s[0] == 84 || s[0] == 89 || s[0] == 79 || s[0] == 77) ==> read_message(s)
            == Some(Message::Other),
        s.len() > 0 && s[0] != 66 && s[0] != 67 && s[0] != 82 && s[0] != 73 && s[0] != 85 && s[0]
            != 68 && s[0] != 84 && s[0] != 89 && s[0] != 79 && s[0] != 77 ==> read_message(
            s,
        ) is None,
        read_message(s) matches Some(m) ==> {
            &&& m is Begin <==> s[0] == 66
            &&& m is Commit <==> s[0] == 67
            &&& m is Relation <==> s[0] == 82
            &&& m is Insert <==> s[0] == 73
            &&& m is Update <==> s[0] == 85
            &&& m is Delete <==> s[0] == 68
        },
{
}

} // verus!
