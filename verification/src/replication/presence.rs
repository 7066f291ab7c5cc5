//! Which columns outside the identity have a value in a row of the stream.

use bit_vec::BitVec;
use vstd::prelude::*;

use super::error::Error;
use super::table::{non_identity_count, PublicationTableColumn, Table};
use super::tuple::{ColumnView, Identifier, TupleData};
use crate::assoc::{CopyKey, KeyEq};

verus! {

/// A vector of bits, of any length.
#[verifier::external_type_specification]
#[verifier::external_body]
#[verifier::reject_recursive_types(B)]
pub struct ExBitVec<B>(BitVec<B>);

/// The bits that a bit vector holds, in order.
pub uninterp spec fn bits(v: BitVec<u32>) -> Seq<bool>;

/// Whether no flag is set.
pub open spec fn none_set(mask: Seq<bool>) -> bool {
    forall|i: int| 0 <= i < mask.len() ==> !(#[trigger] mask[i])
}

/// Whether every flag is set.
pub open spec fn all_set(mask: Seq<bool>) -> bool {
    forall|i: int| 0 <= i < mask.len() ==> #[trigger] mask[i]
}

/// `BitVec::from_elem` makes a vector of the given length in which every bit has
/// the given value.
#[verifier::external_body]
fn bits_from_elem(len: usize, bit: bool) -> (v: BitVec<u32>)
    ensures
        bits(v) == Seq::new(len as nat, |i: int| bit),
{
    BitVec::from_elem(len, bit)
}

/// `BitVec::set` gives one bit a new value and leaves the others alone. It panics
/// on an index past the end.
#[verifier::external_body]
fn bits_set(v: &mut BitVec<u32>, i: usize, bit: bool)
    requires
        i < bits(*old(v)).len(),
    ensures
        bits(*final(v)) == bits(*old(v)).update(i as int, bit),
{
    v.set(i, bit)
}

/// `BitVec::get` reads one bit, and nothing past the end.
#[verifier::external_body]
fn bits_get(v: &BitVec<u32>, i: usize) -> (bit: Option<bool>)
    ensures
        bit == if i < bits(*v).len() {
            Some(bits(*v)[i as int])
        } else {
            None
        },
{
    v.get(i)
}

/// `BitVec::none` tells whether no bit is set.
#[verifier::external_body]
fn bits_none(v: &BitVec<u32>) -> (b: bool)
    ensures
        b == none_set(bits(*v)),
{
    v.none()
}

/// `BitVec::all` tells whether every bit is set.
#[verifier::external_body]
fn bits_all(v: &BitVec<u32>) -> (b: bool)
    ensures
        b == all_set(bits(*v)),
{
    v.all()
}

/// `BitVec::eq` compares lengths and bits.
#[verifier::external_body]
fn bits_eq(a: &BitVec<u32>, b: &BitVec<u32>) -> (same: bool)
    ensures
        same == (bits(*a) == bits(*b)),
{
    a == b
}

/// `BitVec::clone` gives a vector with the same bits.
#[verifier::external_body]
fn bits_clone(v: &BitVec<u32>) -> (out: BitVec<u32>)
    ensures
        bits(out) == bits(*v),
{
    v.clone()
}

/// Presence flags for the columns outside the identity of an updated row: one for
/// each, in the table's order, set where the column has a value. The identity
/// columns always have one.
#[derive(Debug, PartialEq, Eq, Hash)]
pub struct NonIdentityColumnsPresence {
    mask: BitVec<u32>,
    count_present: usize,
}

impl View for NonIdentityColumnsPresence {
    type V = Seq<bool>;

    closed spec fn view(&self) -> Seq<bool> {
        bits(self.mask)
    }
}

/// How many flags are set.
pub open spec fn count_set(mask: Seq<bool>) -> nat
    decreases mask.len(),
{
    if mask.len() == 0 {
        0
    } else if mask.last() {
        count_set(mask.drop_last()) + 1
    } else {
        count_set(mask.drop_last())
    }
}

/// The flags of a row: for each column outside the identity, whether its value
/// was sent.
pub open spec fn presence_of(
    row: Seq<ColumnView>,
    columns: Seq<PublicationTableColumn>,
) -> Seq<bool>
    decreases columns.len(),
{
    if columns.len() == 0 {
        Seq::empty()
    } else {
        let before = presence_of(row, columns.drop_last());
        if columns.last().identity {
            before
        } else {
            before.push(row[columns.len() - 1].identifier != Identifier::Toasted)
        }
    }
}

proof fn lemma_presence_len(row: Seq<ColumnView>, columns: Seq<PublicationTableColumn>)
    ensures
        presence_of(row, columns).len() == non_identity_count(columns),
        non_identity_count(columns) <= columns.len(),
    decreases columns.len(),
{
    if columns.len() > 0 {
        lemma_presence_len(row, columns.drop_last());
    }
}

proof fn lemma_count_bound(columns: Seq<PublicationTableColumn>, i: int)
    requires
        0 <= i <= columns.len(),
    ensures
        non_identity_count(columns.take(i)) <= non_identity_count(columns),
    decreases columns.len(),
{
    if i == columns.len() {
        assert(columns.take(i) =~= columns);
    } else {
        lemma_count_bound(columns.drop_last(), i);
        assert(columns.drop_last().take(i) =~= columns.take(i));
    }
}

proof fn lemma_count_set_all(mask: Seq<bool>)
    ensures
        count_set(mask) <= mask.len(),
        all_set(mask) ==> count_set(mask) == mask.len(),
        count_set(mask) == 0 <==> none_set(mask),
    decreases mask.len(),
{
    if mask.len() > 0 {
        lemma_count_set_all(mask.drop_last());
        if all_set(mask) {
            assert(forall|i: int| 0 <= i < mask.drop_last().len() ==> mask.drop_last()[i] == mask[i]);
            assert(mask[mask.len() - 1]);
        }
        if none_set(mask) {
            assert(forall|i: int| 0 <= i < mask.drop_last().len() ==> mask.drop_last()[i] == mask[i]);
            assert(!mask[mask.len() - 1]);
        }
        if count_set(mask) == 0 {
            assert forall|i: int| 0 <= i < mask.len() implies !(#[trigger] mask[i]) by {
                if i < mask.len() - 1 {
                    assert(!mask.drop_last()[i]);
                }
            }
        }
    }
}

fn count_non_identity(columns: &Vec<PublicationTableColumn>) -> (n: usize)
    ensures
        n == non_identity_count(columns@),
{
    let mut i: usize = 0;
    let mut n: usize = 0;
    while i < columns.len()
        invariant
            i <= columns.len(),
            n <= i,
            n == non_identity_count(columns@.take(i as int)),
        decreases columns.len() - i,
    {
        assert(columns@.take(i + 1).drop_last() =~= columns@.take(i as int));
        if !columns[i].identity {
            n += 1;
        }
        i += 1;
    }
    assert(columns@.take(columns@.len() as int) =~= columns@);
    n
}

impl NonIdentityColumnsPresence {
    /// Whether the cached count is that of the flags.
    pub closed spec fn wf(&self) -> bool {
        self.count_present == count_set(self@)
    }

    /// The flags of an updated row. Row and table must have the same columns.
    pub fn from_tuple(tuple: &TupleData, table: &Table) -> (out: Result<Self, Error>)
        ensures
            match out {
                Ok(p) => tuple@.len() == table.columns@.len() && p@ == presence_of(
                    tuple@,
                    table.columns@,
                ) && p.wf(),
                Err(e) => tuple@.len() != table.columns@.len() && e is MissingData,
            },
    {
        if tuple.columns.len() != table.columns.len() {
            return Err(Error::MissingData);
        }
        let columns: &Vec<PublicationTableColumn> = &table.columns;
        let count: usize = count_non_identity(columns);
        let mut mask: BitVec<u32> = bits_from_elem(count, false);
        let mut idx: usize = 0;
        let mut count_present: usize = 0;
        let mut i: usize = 0;
        assert(bits(mask).take(0) =~= presence_of(tuple@, columns@.take(0)));
        while i < columns.len()
            invariant
                i <= columns.len(),
                tuple.columns@.len() == columns@.len(),
                count == non_identity_count(columns@),
                bits(mask).len() == count,
                idx == non_identity_count(columns@.take(i as int)),
                idx <= count,
                idx <= i,
                count_present <= idx,
                bits(mask).take(idx as int) == presence_of(tuple@, columns@.take(i as int)),
                forall|j: int| idx <= j < count ==> !(#[trigger] bits(mask)[j]),
                count_present == count_set(bits(mask).take(idx as int)),
            decreases columns.len() - i,
        {
            proof {
                assert(columns@.take(i + 1).drop_last() =~= columns@.take(i as int));
                lemma_count_bound(columns@, i + 1);
            }
            if !columns[i].identity {
                let ghost before = bits(mask);
                assert(tuple@[i as int] == tuple.columns@[i as int]@);
                if tuple.columns[i].identifier != Identifier::Toasted {
                    bits_set(&mut mask, idx, true);
                    count_present += 1;
                }
                proof {
                    let flag = tuple@[i as int].identifier != Identifier::Toasted;
                    assert(bits(mask).take(idx + 1) =~= before.take(idx as int).push(flag));
                    assert(bits(mask).take(idx + 1).drop_last() =~= before.take(idx as int));
                }
                idx += 1;
            }
            i += 1;
        }
        proof {
            assert(columns@.take(columns@.len() as int) =~= columns@);
            assert(bits(mask).take(idx as int) =~= bits(mask));
        }
        Ok(NonIdentityColumnsPresence { mask, count_present })
    }

    /// Whether the `idx`-th column outside the identity has a value.
    pub fn is_set(&self, idx: usize) -> (b: bool)
        ensures
            b == (idx < self@.len() && self@[idx as int]),
    {
        bits_get(&self.mask, idx).unwrap_or(false)
    }

    /// Whether no column outside the identity has a value.
    pub fn no_non_identity_present(&self) -> (b: bool)
        ensures
            b == none_set(self@),
    {
        bits_none(&self.mask)
    }

    /// How many columns outside the identity have a value.
    pub fn count_present(&self) -> (n: usize)
        requires
            self.wf(),
        ensures
            n == count_set(self@),
    {
        self.count_present
    }

    /// Every column outside the identity has a value.
    pub fn all(table: &Table) -> (out: Self)
        ensures
            out@ == Seq::new(non_identity_count(table.columns@), |i: int| true),
            out.wf(),
    {
        let count: usize = count_non_identity(&table.columns);
        let mask: BitVec<u32> = bits_from_elem(count, true);
        proof {
            lemma_count_set_all(bits(mask));
        }
        NonIdentityColumnsPresence { mask, count_present: count }
    }

    /// Whether every column outside the identity has a value.
    pub fn is_all_present(&self) -> (b: bool)
        ensures
            b == all_set(self@),
    {
        bits_all(&self.mask)
    }

    /// A copy of the flags.
    pub fn copy(&self) -> (out: Self)
        ensures
            out@ == self@,
            self.wf() ==> out.wf(),
    {
        NonIdentityColumnsPresence {
            mask: bits_clone(&self.mask),
            count_present: self.count_present,
        }
    }
}

impl KeyEq for NonIdentityColumnsPresence {
    fn key_eq(&self, other: &Self) -> (same: bool) {
        bits_eq(&self.mask, &other.mask)
    }
}

impl CopyKey for NonIdentityColumnsPresence {
    fn copy_key(&self) -> (out: Self) {
        self.copy()
    }
}

/// There are as many flags as there are columns outside the identity, and no flag
/// is set exactly where none of those columns has a value.
pub proof fn law_presence_counts(row: Seq<ColumnView>, columns: Seq<PublicationTableColumn>)
    ensures
        presence_of(row, columns).len() == non_identity_count(columns),
        count_set(presence_of(row, columns)) <= non_identity_count(columns),
        count_set(presence_of(row, columns)) == 0 <==> none_set(presence_of(row, columns)),
{
    lemma_presence_len(row, columns);
    lemma_count_set_all(presence_of(row, columns));
}

} // verus!
