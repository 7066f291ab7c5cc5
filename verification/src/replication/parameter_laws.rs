//! That statements and their parameters go together: the value that a statement reads
//! at a placeholder is the value of the column that it uses the placeholder for.

use vstd::prelude::*;

use super::change_laws::{without_nulls, without_toasted};
use super::presence::presence_of;
use super::table::{
    assigned_behind, compared, equation, last_present, non_identity_count, positioned,
    present_behind, present_count, present_equations, renumbered, sameness, PublicationTableColumn,
};
use super::tuple::{ColumnView, Identifier};

verus! {

/// Whether places are those of the columns outside the identity, in order.
pub open spec fn are_other_columns(
    columns: Seq<PublicationTableColumn>,
    places: Seq<int>,
) -> bool {
    &&& forall|j: int, k: int| 0 <= j < k < places.len() ==> places[j] < places[k]
    &&& forall|i: int| #[trigger]
        places.contains(i) <==> 0 <= i < columns.len() && !columns[i].identity
}

/// There is a flag for each column outside the identity, in order, and it is set where
/// the value of the column was sent.
pub proof fn law_flags_tell_what_was_sent(
    row: Seq<ColumnView>,
    columns: Seq<PublicationTableColumn>,
) -> (places: Seq<int>)
    ensures
        are_other_columns(columns, places),
        presence_of(row, columns).len() == places.len(),
        forall|k: int|
            0 <= k < places.len() ==> #[trigger] presence_of(row, columns)[k] == !(
            row[places[k]].identifier is Toasted),
    decreases columns.len(),
{
    if columns.len() == 0 {
        Seq::empty()
    } else {
        let last = columns.len() - 1;
        let rest = columns.drop_last();
        let before = law_flags_tell_what_was_sent(row, rest);
        assert(forall|i: int| 0 <= i < last ==> rest[i] == columns[i]);
        let places = if columns[last].identity {
            before
        } else {
            before.push(last)
        };
        assert forall|i: int| #[trigger]
            places.contains(i) <==> 0 <= i < columns.len() && !columns[i].identity by {
            assert(before.contains(i) <==> 0 <= i < rest.len() && !rest[i].identity);
            if !columns[last].identity {
                vstd::seq_lib::lemma_seq_contains_after_push(before, last, i);
            }
        }
        assert forall|j: int, k: int| 0 <= j < k < places.len() implies places[j] < places[k] by {
            if k == before.len() {
                assert(before.contains(before[j]));
            }
        }
        assert forall|k: int| 0 <= k < places.len() implies #[trigger] presence_of(
            row,
            columns,
        )[k] == !(row[places[k]].identifier is Toasted) by {
            if k < before.len() {
                assert(presence_of(row, columns)[k] == presence_of(row, rest)[k]);
            }
        }
        places
    }
}

proof fn lemma_presence_len(row: Seq<ColumnView>, columns: Seq<PublicationTableColumn>)
    ensures
        presence_of(row, columns).len() == non_identity_count(columns),
    decreases columns.len(),
{
    if columns.len() > 0 {
        lemma_presence_len(row, columns.drop_last());
    }
}

proof fn lemma_presence_prefix(row: Seq<ColumnView>, columns: Seq<PublicationTableColumn>, k: int)
    requires
        0 <= k <= columns.len(),
    ensures
        presence_of(row, columns.take(k)).len() <= presence_of(row, columns).len(),
        forall|j: int|
            0 <= j < presence_of(row, columns.take(k)).len() ==> #[trigger] presence_of(
                row,
                columns,
            )[j] == presence_of(row, columns.take(k))[j],
    decreases columns.len(),
{
    if k < columns.len() {
        let rest = columns.drop_last();
        lemma_presence_prefix(row, rest, k);
        assert(rest.take(k) =~= columns.take(k));
        let short = presence_of(row, rest);
        let long = presence_of(row, columns);
        assert forall|j: int|
            0 <= j < presence_of(row, columns.take(k)).len() implies #[trigger] presence_of(
            row,
            columns,
        )[j] == presence_of(row, columns.take(k))[j] by {
            assert(long[j] == short[j]);
        }
    } else {
        assert(columns.take(k) =~= columns);
    }
}

/// Whether every value of the identity was sent.
pub open spec fn identity_was_sent(
    new: Seq<ColumnView>,
    columns: Seq<PublicationTableColumn>,
) -> bool {
    forall|i: int|
        0 <= i < columns.len() && (#[trigger] columns[i]).identity ==> !(
        new[i].identifier is Toasted)
}

proof fn lemma_last_present(new: Seq<ColumnView>, columns: Seq<PublicationTableColumn>, k: int)
    requires
        0 < k <= columns.len(),
        identity_was_sent(new, columns),
    ensures
        last_present(columns.take(k), presence_of(new, columns)) == !(
        new[k - 1].identifier is Toasted),
{
    let c = columns.take(k);
    assert(c.last() == columns[k - 1]);
    assert(c.drop_last() =~= columns.take(k - 1));
    lemma_presence_prefix(new, columns, k);
    lemma_presence_len(new, c.drop_last());
    let at = non_identity_count(c.drop_last()) as int;
    if !columns[k - 1].identity {
        assert(presence_of(new, c)[at] == (new[k - 1].identifier != Identifier::Toasted));
        assert(presence_of(new, columns)[at] == presence_of(new, c)[at]);
    }
}

proof fn lemma_filter_prefix(row: Seq<ColumnView>, f: spec_fn(ColumnView) -> bool, k: int)
    requires
        0 <= k <= row.len(),
    ensures
        row.take(k).filter(f).len() <= row.filter(f).len(),
        forall|j: int|
            0 <= j < row.take(k).filter(f).len() ==> #[trigger] row.filter(f)[j] == row.take(
                k,
            ).filter(f)[j],
    decreases row.len(),
{
    reveal(Seq::filter);
    if k < row.len() {
        let rest = row.drop_last();
        lemma_filter_prefix(rest, f, k);
        assert(rest.take(k) =~= row.take(k));
        assert forall|j: int| 0 <= j < row.take(k).filter(f).len() implies #[trigger] row.filter(
            f,
        )[j] == row.take(k).filter(f)[j] by {
            assert(row.filter(f)[j] == rest.filter(f)[j]);
        }
    } else {
        assert(row.take(k) =~= row);
    }
}

proof fn lemma_filter_last(row: Seq<ColumnView>, f: spec_fn(ColumnView) -> bool, i: int)
    requires
        0 <= i < row.len(),
    ensures
        row.take(i + 1).filter(f) == if f(row[i]) {
            row.take(i).filter(f).push(row[i])
        } else {
            row.take(i).filter(f)
        },
{
    reveal(Seq::filter);
    assert(row.take(i + 1).drop_last() =~= row.take(i));
    assert(row.take(i + 1).last() == row[i]);
}

proof fn lemma_filter_at(row: Seq<ColumnView>, f: spec_fn(ColumnView) -> bool, i: int)
    requires
        0 <= i < row.len(),
        f(row[i]),
    ensures
        row.take(i).filter(f).len() < row.filter(f).len(),
        row.filter(f)[row.take(i).filter(f).len() as int] == row[i],
{
    lemma_filter_last(row, f, i);
    lemma_filter_prefix(row, f, i + 1);
    let at = row.take(i).filter(f).len() as int;
    assert(row.take(i + 1).filter(f)[at] == row[i]);
    assert(row.filter(f)[at] == row.take(i + 1).filter(f)[at]);
}

proof fn lemma_present_count(new: Seq<ColumnView>, columns: Seq<PublicationTableColumn>, k: int)
    requires
        0 <= k <= columns.len() == new.len(),
        identity_was_sent(new, columns),
    ensures
        present_count(columns.take(k), presence_of(new, columns)) == without_toasted(
            new.take(k),
        ).len(),
    decreases k,
{
    reveal(Seq::filter);
    if k > 0 {
        lemma_present_count(new, columns, k - 1);
        lemma_last_present(new, columns, k);
        assert(columns.take(k).drop_last() =~= columns.take(k - 1));
        lemma_filter_last(new, |c: ColumnView| !(c.identifier is Toasted), k - 1);
    }
}

proof fn lemma_present_equation(
    columns: Seq<PublicationTableColumn>,
    mask: Seq<bool>,
    identity: bool,
    i: int,
    k: int,
)
    requires
        0 <= i < k <= columns.len(),
        last_present(columns.take(i + 1), mask),
        columns[i].identity == identity,
    ensures
        present_equations(columns.take(k), mask, identity).contains(
            equation(columns[i].name@, present_count(columns.take(i + 1), mask)),
        ),
    decreases k,
{
    let e = equation(columns[i].name@, present_count(columns.take(i + 1), mask));
    let c = columns.take(k);
    let before = present_equations(c.drop_last(), mask, identity);
    let all = present_equations(c, mask, identity);
    assert(c.drop_last() =~= columns.take(k - 1));
    assert(c.last() == columns[k - 1]);
    if k == i + 1 {
        assert(all == before.push(e));
        assert(all[before.len() as int] == e);
    } else {
        lemma_present_equation(columns, mask, identity, i, k - 1);
        let j = before.index_of(e);
        assert(all[j] == e);
    }
}

proof fn lemma_present_behind(
    columns: Seq<PublicationTableColumn>,
    mask: Seq<bool>,
    offset: nat,
    i: int,
    k: int,
)
    requires
        0 <= i < k <= columns.len(),
        last_present(columns.take(i + 1), mask),
    ensures
        present_behind(columns.take(k), mask, offset).contains(
            equation(columns[i].name@, offset + present_count(columns.take(i + 1), mask)),
        ),
    decreases k,
{
    let e = equation(columns[i].name@, offset + present_count(columns.take(i + 1), mask));
    let c = columns.take(k);
    let before = present_behind(c.drop_last(), mask, offset);
    let all = present_behind(c, mask, offset);
    assert(c.drop_last() =~= columns.take(k - 1));
    assert(c.last() == columns[k - 1]);
    if k == i + 1 {
        assert(all == before.push(e));
        assert(all[before.len() as int] == e);
    } else {
        lemma_present_behind(columns, mask, offset, i, k - 1);
        let j = before.index_of(e);
        assert(all[j] == e);
    }
}

/// An update of the columns that were sent reads each of them at its own placeholder:
/// it is set from there, or found by it where it belongs to the identity.
pub proof fn law_partial_updates_read_their_columns(
    new: Seq<ColumnView>,
    columns: Seq<PublicationTableColumn>,
    i: int,
) -> (n: nat)
    requires
        new.len() == columns.len(),
        identity_was_sent(new, columns),
        0 <= i < columns.len(),
        !(new[i].identifier is Toasted),
    ensures
        0 < n <= without_toasted(new).len(),
        without_toasted(new)[n - 1] == new[i],
        present_equations(
            columns,
            presence_of(new, columns),
            columns[i].identity,
        ).contains(equation(columns[i].name@, n)),
        present_behind(columns, presence_of(new, columns), columns.len()).contains(
            equation(columns[i].name@, columns.len() + n),
        ),
{
    let mask = presence_of(new, columns);
    let sent = |c: ColumnView| !(c.identifier is Toasted);
    lemma_last_present(new, columns, i + 1);
    lemma_present_count(new, columns, i + 1);
    lemma_filter_last(new, sent, i);
    lemma_filter_at(new, sent, i);
    assert(columns.take(columns.len() as int) =~= columns);
    lemma_present_equation(columns, mask, columns[i].identity, i, columns.len() as int);
    lemma_present_behind(columns, mask, columns.len(), i, columns.len() as int);
    present_count(columns.take(i + 1), mask)
}

proof fn lemma_present_equations_only(
    columns: Seq<PublicationTableColumn>,
    mask: Seq<bool>,
    identity: bool,
    k: int,
    j: int,
) -> (i: int)
    requires
        0 <= k <= columns.len(),
        0 <= j < present_equations(columns.take(k), mask, identity).len(),
    ensures
        0 <= i < k,
        last_present(columns.take(i + 1), mask),
        columns[i].identity == identity,
        present_equations(columns.take(k), mask, identity)[j] == equation(
            columns[i].name@,
            present_count(columns.take(i + 1), mask),
        ),
    decreases k,
{
    let c = columns.take(k);
    if k == 0 {
        assert(false);
        0
    } else {
        let before = present_equations(c.drop_last(), mask, identity);
        assert(c.drop_last() =~= columns.take(k - 1));
        assert(c.last() == columns[k - 1]);
        if j < before.len() {
            lemma_present_equations_only(columns, mask, identity, k - 1, j)
        } else {
            k - 1
        }
    }
}

/// An update of the columns that were sent sets, and looks for, nothing but columns
/// that were sent.
pub proof fn law_partial_updates_read_nothing_else(
    new: Seq<ColumnView>,
    columns: Seq<PublicationTableColumn>,
    identity: bool,
    j: int,
) -> (i: int)
    requires
        new.len() == columns.len(),
        identity_was_sent(new, columns),
        0 <= j < present_equations(columns, presence_of(new, columns), identity).len(),
    ensures
        0 <= i < columns.len(),
        columns[i].identity == identity,
        !(new[i].identifier is Toasted),
        exists|n: nat|
            0 < n <= without_toasted(new).len() && without_toasted(new)[n - 1] == new[i]
                && present_equations(columns, presence_of(new, columns), identity)[j]
                == #[trigger] equation(columns[i].name@, n),
{
    let mask = presence_of(new, columns);
    assert(columns.take(columns.len() as int) =~= columns);
    let i = lemma_present_equations_only(columns, mask, identity, columns.len() as int, j);
    lemma_last_present(new, columns, i + 1);
    let n = law_partial_updates_read_their_columns(new, columns, i);
    let sent = |c: ColumnView| !(c.identifier is Toasted);
    lemma_present_count(new, columns, i + 1);
    lemma_filter_last(new, sent, i);
    lemma_filter_at(new, sent, i);
    let m = present_count(columns.take(i + 1), mask);
    assert(present_equations(columns, mask, identity)[j] == equation(columns[i].name@, m));
    assert(without_toasted(new)[m - 1] == new[i]);
    i
}

/// Whether a key carries the columns of the identity, and those alone.
pub open spec fn is_key(key: Seq<ColumnView>, columns: Seq<PublicationTableColumn>) -> bool {
    &&& key.len() == columns.len()
    &&& forall|i: int|
        0 <= i < columns.len() ==> (#[trigger] columns[i]).identity == !(key[i].identifier is Null)
}

proof fn lemma_renumbered(
    key: Seq<ColumnView>,
    columns: Seq<PublicationTableColumn>,
    k: int,
)
    requires
        0 <= k <= columns.len(),
        is_key(key, columns),
    ensures
        renumbered(columns.take(k)).len() == without_nulls(key.take(k)).len(),
    decreases k,
{
    reveal(Seq::filter);
    if k > 0 {
        lemma_renumbered(key, columns, k - 1);
        assert(columns.take(k).drop_last() =~= columns.take(k - 1));
        assert(columns.take(k).last() == columns[k - 1]);
        lemma_filter_last(key, |c: ColumnView| !(c.identifier is Null), k - 1);
        assert(columns[k - 1].identity == !(key[k - 1].identifier is Null));
    }
}

proof fn lemma_renumbered_prefix(columns: Seq<PublicationTableColumn>, i: int, k: int)
    requires
        0 <= i < k <= columns.len(),
        columns[i].identity,
    ensures
        renumbered(columns.take(i)).len() < renumbered(columns.take(k)).len(),
        renumbered(columns.take(k))[renumbered(columns.take(i)).len() as int] == equation(
            columns[i].name@,
            renumbered(columns.take(i)).len() + 1,
        ),
    decreases k,
{
    let c = columns.take(k);
    assert(c.drop_last() =~= columns.take(k - 1));
    assert(c.last() == columns[k - 1]);
    if k > i + 1 {
        lemma_renumbered_prefix(columns, i, k - 1);
    }
}

/// A delete by the key reads each column of the identity at its own placeholder, among
/// the values of the key that are there.
pub proof fn law_deletes_read_their_key(
    key: Seq<ColumnView>,
    columns: Seq<PublicationTableColumn>,
    i: int,
) -> (n: nat)
    requires
        is_key(key, columns),
        0 <= i < columns.len(),
        columns[i].identity,
    ensures
        0 < n <= without_nulls(key).len(),
        without_nulls(key)[n - 1] == key[i],
        renumbered(columns)[n - 1] == equation(columns[i].name@, n),
        renumbered(columns).len() == without_nulls(key).len(),
{
    let there = |c: ColumnView| !(c.identifier is Null);
    assert(columns.take(columns.len() as int) =~= columns);
    assert(key.take(key.len() as int) =~= key);
    lemma_renumbered(key, columns, columns.len() as int);
    lemma_renumbered(key, columns, i);
    lemma_renumbered_prefix(columns, i, columns.len() as int);
    assert(there(key[i]));
    lemma_filter_at(key, there, i);
    renumbered(columns.take(i)).len() + 1
}

proof fn lemma_positioned(
    columns: Seq<PublicationTableColumn>,
    identity: bool,
    e: Seq<char>,
)
    ensures
        positioned(columns, identity).contains(e) <==> exists|i: int|
            0 <= i < columns.len() && (#[trigger] columns[i]).identity == identity && e == equation(
                columns[i].name@,
                (i + 1) as nat,
            ),
    decreases columns.len(),
{
    if columns.len() > 0 {
        let rest = columns.drop_last();
        let last = columns.len() - 1;
        lemma_positioned(rest, identity, e);
        assert(columns.last() == columns[last]);
        assert(forall|i: int| 0 <= i < last ==> #[trigger] rest[i] == columns[i]);
        let own = equation(columns[last].name@, columns.len());
        if columns[last].identity == identity {
            vstd::seq_lib::lemma_seq_contains_after_push(positioned(rest, identity), own, e);
        }
        if positioned(rest, identity).contains(e) {
            let i = choose|i: int|
                0 <= i < rest.len() && (#[trigger] rest[i]).identity == identity && e == equation(
                    rest[i].name@,
                    (i + 1) as nat,
                );
            assert(columns[i].identity == identity);
        }
        if exists|i: int|
            0 <= i < columns.len() && (#[trigger] columns[i]).identity == identity && e == equation(
                columns[i].name@,
                (i + 1) as nat,
            ) {
            let i = choose|i: int|
                0 <= i < columns.len() && (#[trigger] columns[i]).identity == identity && e
                    == equation(columns[i].name@, (i + 1) as nat);
            if i < last {
                assert(rest[i].identity == identity);
            }
        }
    }
}

/// An update of a whole row sets each column outside the identity from its own
/// placeholder, and finds the row by each column of the identity at its own.
pub proof fn law_updates_read_their_columns(
    columns: Seq<PublicationTableColumn>,
    identity: bool,
    e: Seq<char>,
)
    ensures
        positioned(columns, identity).contains(e) <==> exists|i: int|
            0 <= i < columns.len() && (#[trigger] columns[i]).identity == identity && e == equation(
                columns[i].name@,
                (i + 1) as nat,
            ),
{
    lemma_positioned(columns, identity, e);
}

/// Under FULL, a row is found by all the columns of the row before it, which come
/// first, and set to those of the new row, which come behind.
pub proof fn law_full_updates_read_both_rows(
    columns: Seq<PublicationTableColumn>,
    old: Seq<ColumnView>,
    new: Seq<ColumnView>,
    i: int,
)
    requires
        old.len() == columns.len(),
        new.len() == columns.len(),
        0 <= i < columns.len(),
    ensures
        compared(columns).len() == columns.len(),
        assigned_behind(columns).len() == columns.len(),
        compared(columns)[i] == sameness(columns[i].name@, (i + 1) as nat),
        (old + new)[i] == old[i],
        assigned_behind(columns)[i] == equation(
            columns[i].name@,
            (columns.len() + i + 1) as nat,
        ),
        (old + new)[columns.len() + i] == new[i],
{
}

} // verus!
