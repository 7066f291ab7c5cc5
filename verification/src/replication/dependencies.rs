//! The order in which tables are copied into a schema whose foreign keys are
//! enforced: a table that others refer to comes before them.

use vstd::prelude::*;
use vstd::seq_lib::{to_multiset_build, to_multiset_contains, to_multiset_remove};

use super::publisher::{key_of, table_views};
use super::table::{Key, KeyView, Table, TableView};
use crate::assoc::KeyEq;

verus! {

/// Whether a table refers to another one. Each reference names the table that has
/// the foreign key first, and the one that it points at second.
pub open spec fn refers(references: Seq<(Key, Key)>, from: KeyView, to: KeyView) -> bool {
    from != to && exists|r: int|
        0 <= r < references.len() && (#[trigger] references[r]).0@ == from && references[r].1@ == to
}

/// Whether every table has a higher rank than those that it refers to.
pub open spec fn ranked(
    tables: Seq<TableView>,
    references: Seq<(Key, Key)>,
    rank: spec_fn(KeyView) -> nat,
) -> bool {
    forall|a: TableView, b: TableView| #[trigger]
        tables.contains(a) && #[trigger] tables.contains(b) && refers(
            references,
            key_of(a),
            key_of(b),
        ) ==> rank(key_of(b)) < rank(key_of(a))
}

/// Whether the tables do not refer to each other in a circle.
pub open spec fn acyclic(tables: Seq<TableView>, references: Seq<(Key, Key)>) -> bool {
    exists|rank: spec_fn(KeyView) -> nat| #[trigger] ranked(tables, references, rank)
}

/// Whether no table refers to a later one.
pub open spec fn parents_first(tables: Seq<TableView>, references: Seq<(Key, Key)>) -> bool {
    forall|i: int, j: int|
        0 <= i < j < tables.len() ==> !refers(
            references,
            key_of(#[trigger] tables[i]),
            key_of(#[trigger] tables[j]),
        )
}

/// Whether a table refers to none of the others.
spec fn ready(tables: Seq<TableView>, references: Seq<(Key, Key)>, i: int) -> bool {
    forall|j: int|
        0 <= j < tables.len() ==> !refers(
            references,
            key_of(tables[i]),
            key_of(#[trigger] tables[j]),
        )
}

fn table_refers(references: &Vec<(Key, Key)>, from: &Table, to: &Table) -> (b: bool)
    ensures
        b == refers(references@, key_of(from@), key_of(to@)),
{
    let a: Key = from.key();
    let b: Key = to.key();
    if a.key_eq(&b) {
        return false;
    }
    let mut r: usize = 0;
    while r < references.len()
        invariant
            r <= references.len(),
            a@ == key_of(from@),
            b@ == key_of(to@),
            a@ != b@,
            forall|q: int|
                0 <= q < r ==> !((#[trigger] references@[q]).0@ == a@ && references@[q].1@ == b@),
        decreases references.len() - r,
    {
        if references[r].0.key_eq(&a) && references[r].1.key_eq(&b) {
            assert(references@[r as int].0@ == a@ && references@[r as int].1@ == b@);
            return true;
        }
        r += 1;
    }
    false
}

fn is_ready(tables: &Vec<Table>, references: &Vec<(Key, Key)>, i: usize) -> (b: bool)
    requires
        i < tables.len(),
    ensures
        b == ready(table_views(tables@), references@, i as int),
{
    let ghost views = table_views(tables@);
    let mut j: usize = 0;
    while j < tables.len()
        invariant
            i < tables.len(),
            j <= tables.len(),
            views == table_views(tables@),
            forall|k: int|
                0 <= k < j ==> !refers(
                    references@,
                    key_of(views[i as int]),
                    key_of(#[trigger] views[k]),
                ),
        decreases tables.len() - j,
    {
        assert(views[i as int] == tables@[i as int]@);
        assert(views[j as int] == tables@[j as int]@);
        if table_refers(references, &tables[i], &tables[j]) {
            return false;
        }
        j += 1;
    }
    true
}

/// The first table that refers to none of the others, or the first table where there
/// is no such one.
fn first_ready(tables: &Vec<Table>, references: &Vec<(Key, Key)>) -> (out: usize)
    requires
        tables.len() > 0,
    ensures
        out < tables.len(),
        ({
            let views = table_views(tables@);
            &&& forall|j: int| 0 <= j < out ==> !ready(views, references@, j)
            &&& ready(views, references@, out as int) || (out == 0 && forall|j: int|
                0 <= j < views.len() ==> !ready(views, references@, j))
        }),
{
    let mut i: usize = 0;
    while i < tables.len()
        invariant
            i <= tables.len(),
            forall|j: int| 0 <= j < i ==> !ready(table_views(tables@), references@, j),
        decreases tables.len() - i,
    {
        if is_ready(tables, references, i) {
            return i;
        }
        i += 1;
    }
    0
}

proof fn lemma_no_tables(tables: Seq<TableView>)
    requires
        tables.len() == 0,
    ensures
        tables.to_multiset() == vstd::multiset::Multiset::<TableView>::empty(),
{
    broadcast use vstd::multiset::group_multiset_axioms;

    assert forall|t: TableView| tables.to_multiset().count(t) == 0 by {
        to_multiset_contains(tables, t);
    }
    assert(tables.to_multiset() =~= vstd::multiset::Multiset::<TableView>::empty());
}

proof fn lemma_lowest(tables: Seq<TableView>, rank: spec_fn(KeyView) -> nat) -> (low: int)
    requires
        tables.len() > 0,
    ensures
        0 <= low < tables.len(),
        forall|j: int|
            0 <= j < tables.len() ==> rank(key_of(tables[low])) <= rank(
                key_of(#[trigger] tables[j]),
            ),
    decreases tables.len(),
{
    let last = tables.len() - 1;
    if last == 0 {
        0
    } else {
        let front = tables.drop_last();
        let low = lemma_lowest(front, rank);
        assert forall|j: int| 0 <= j < last implies rank(key_of(tables[low])) <= rank(
            key_of(#[trigger] tables[j]),
        ) by {
            assert(front[j] == tables[j]);
        }
        if rank(key_of(tables[last])) < rank(key_of(tables[low])) {
            last
        } else {
            low
        }
    }
}

/// Among tables that do not refer to each other in a circle, one refers to none of
/// the others.
proof fn lemma_some_ready(
    all: Seq<TableView>,
    rest: Seq<TableView>,
    references: Seq<(Key, Key)>,
) -> (low: int)
    requires
        acyclic(all, references),
        rest.len() > 0,
        forall|t: TableView| rest.contains(t) ==> all.contains(t),
    ensures
        0 <= low < rest.len(),
        ready(rest, references, low),
{
    let rank = choose|rank: spec_fn(KeyView) -> nat| #[trigger] ranked(all, references, rank);
    let low = lemma_lowest(rest, rank);
    assert forall|j: int| 0 <= j < rest.len() implies !refers(
        references,
        key_of(rest[low]),
        key_of(#[trigger] rest[j]),
    ) by {
        assert(rest.contains(rest[low]));
        assert(rest.contains(rest[j]));
        assert(all.contains(rest[low]) && all.contains(rest[j]));
    }
    low
}

/// Puts tables that others refer to before those, as far as the tables do not refer
/// to each other in a circle. Tables that are in such an order stay as they are.
pub fn dependency_order(tables: Vec<Table>, references: &Vec<(Key, Key)>) -> (out: Vec<Table>)
    ensures
        table_views(out@).to_multiset() == table_views(tables@).to_multiset(),
        acyclic(table_views(tables@), references@) ==> parents_first(
            table_views(out@),
            references@,
        ),
        parents_first(table_views(tables@), references@) ==> table_views(out@) == table_views(
            tables@,
        ),
{
    broadcast use vstd::multiset::group_multiset_axioms;

    let ghost all = table_views(tables@);
    let mut rest: Vec<Table> = tables;
    let mut out: Vec<Table> = Vec::new();
    proof {
        assert(table_views(out@) =~= Seq::<TableView>::empty());
        lemma_no_tables(table_views(out@));
        assert(all.skip(0) =~= all);
        assert(all.take(0) =~= table_views(out@));
    }
    while rest.len() > 0
        invariant
            table_views(out@).to_multiset().add(table_views(rest@).to_multiset())
                == all.to_multiset(),
            forall|t: TableView| #[trigger] table_views(rest@).contains(t) ==> all.contains(t),
            acyclic(all, references@) ==> parents_first(table_views(out@), references@),
            acyclic(all, references@) ==> forall|i: int, j: int|
                0 <= i < out@.len() && 0 <= j < rest@.len() ==> !refers(
                    references@,
                    key_of(#[trigger] table_views(out@)[i]),
                    key_of(#[trigger] table_views(rest@)[j]),
                ),
            out@.len() + rest@.len() == all.len(),
            parents_first(all, references@) ==> table_views(out@) == all.take(out@.len() as int)
                && table_views(rest@) == all.skip(out@.len() as int),
        decreases rest.len(),
    {
        let at: usize = first_ready(&rest, references);
        let ghost before = table_views(out@);
        let ghost from = table_views(rest@);
        let ghost n = out@.len() as int;
        let ghost i = at as int;
        proof {
            if acyclic(all, references@) {
                let low = lemma_some_ready(all, from, references@);
                assert(ready(from, references@, i));
            }
        }
        let table: Table = rest.remove(at);
        let ghost moved = table@;
        out.push(table);
        proof {
            let after = table_views(out@);
            let left = table_views(rest@);
            assert(after =~= before.push(moved));
            assert(left =~= from.remove(i));
            assert(moved == from[i]);
            to_multiset_build(before, moved);
            to_multiset_remove(from, i);
            to_multiset_contains(from, moved);
            assert(from.contains(moved));
            assert(after.to_multiset().add(left.to_multiset()) =~= all.to_multiset());
            assert forall|t: TableView| #[trigger] left.contains(t) implies from.contains(t) by {
                let j = left.index_of(t);
                if j < i {
                    assert(from[j] == t);
                } else {
                    assert(from[j + 1] == t);
                }
            }
            if acyclic(all, references@) {
                assert forall|a: int, b: int| 0 <= a < b < after.len() implies !refers(
                    references@,
                    key_of(#[trigger] after[a]),
                    key_of(#[trigger] after[b]),
                ) by {
                    assert(after[a] == before[a]);
                    if b < n {
                        assert(after[b] == before[b]);
                    } else {
                        assert(after[b] == from[i]);
                    }
                }
                assert forall|a: int, b: int|
                    0 <= a < after.len() && 0 <= b < left.len() implies !refers(
                    references@,
                    key_of(#[trigger] after[a]),
                    key_of(#[trigger] left[b]),
                ) by {
                    let was = if b < i {
                        b
                    } else {
                        b + 1
                    };
                    assert(left[b] == from[was]);
                    if a < n {
                        assert(after[a] == before[a]);
                    } else {
                        assert(after[a] == from[i]);
                    }
                }
            }
            if parents_first(all, references@) {
                assert(ready(from, references@, 0)) by {
                    assert forall|j: int| 0 <= j < from.len() implies !refers(
                        references@,
                        key_of(from[0]),
                        key_of(#[trigger] from[j]),
                    ) by {
                        assert(from[0] == all[n]);
                        assert(from[j] == all[n + j]);
                    }
                }
                assert(i == 0);
                assert(after =~= all.take(n + 1));
                assert(left =~= all.skip(n + 1));
            }
        }
    }
    proof {
        assert(table_views(rest@) =~= Seq::<TableView>::empty());
        lemma_no_tables(table_views(rest@));
        assert(table_views(out@).to_multiset() =~= all.to_multiset());
        assert(all.take(all.len() as int) =~= all);
    }
    out
}

} // verus!
