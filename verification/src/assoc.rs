//! A small map for keys that are told apart by their contents: names and pairs
//! of names.

use vstd::prelude::*;

use crate::text::str_eq;

verus! {

/// A key that can be compared by its view.
pub trait KeyEq: View + Sized {
    /// Whether two keys have the same contents.
    fn key_eq(&self, other: &Self) -> (same: bool)
        ensures
            same == (self@ == other@),
    ;
}

impl KeyEq for String {
    fn key_eq(&self, other: &Self) -> (same: bool) {
        str_eq(self.as_str(), other.as_str())
    }
}

/// A key that can be copied.
pub trait CopyKey: KeyEq {
    /// A key with the same contents.
    fn copy_key(&self) -> (out: Self)
        ensures
            out@ == self@,
    ;
}

/// A value that can be copied.
pub trait CopyValue: Sized {
    /// The same value.
    fn copy_value(&self) -> (out: Self)
        ensures
            out == *self,
    ;
}

/// A map by the contents of its keys. Where a key stands more than once among
/// the entries, the first one counts.
#[derive(Debug, Clone)]
pub struct AssocMap<K: KeyEq, V> {
    entries: Vec<(K, V)>,
}

/// Whether `i` is the first position at which `key` stands.
spec fn first_at<K: KeyEq, V>(entries: Seq<(K, V)>, key: K::V, i: int) -> bool {
    &&& 0 <= i < entries.len()
    &&& entries[i].0@ == key
    &&& forall|j: int| 0 <= j < i ==> (#[trigger] entries[j]).0@ != key
}

spec fn entry_map<K: KeyEq, V>(entries: Seq<(K, V)>) -> Map<K::V, V> {
    Map::new(
        |key: K::V| exists|i: int| first_at(entries, key, i),
        |key: K::V| entries[choose|i: int| first_at(entries, key, i)].1,
    )
}

proof fn lemma_first<K: KeyEq, V>(entries: Seq<(K, V)>, key: K::V, i: int)
    requires
        first_at(entries, key, i),
    ensures
        entry_map(entries).contains_key(key),
        entry_map(entries)[key] == entries[i].1,
{
    let p = choose|p: int| first_at(entries, key, p);
    assert(first_at(entries, key, p));
    assert(p == i) by {
        if p < i {
            assert(entries[p].0@ != key);
        } else if i < p {
            assert(entries[i].0@ != key);
        }
    }
}

proof fn lemma_replaced<K: KeyEq, V>(entries: Seq<(K, V)>, i: int, key: K, value: V)
    requires
        first_at(entries, key@, i),
    ensures
        entry_map(entries.update(i, (key, value))) == entry_map(entries).insert(key@, value),
{
    let after = entries.update(i, (key, value));
    assert forall|k: K::V, j: int| first_at(entries, k, j) <==> first_at(after, k, j) by {
        assert forall|m: int| 0 <= m < entries.len() implies entries[m].0@
            == #[trigger] after[m].0@ by {}
        if first_at(entries, k, j) {
            assert forall|m: int| 0 <= m < j implies (#[trigger] after[m]).0@ != k by {
                assert(entries[m].0@ != k);
            }
        }
        if first_at(after, k, j) {
            assert forall|m: int| 0 <= m < j implies (#[trigger] entries[m]).0@ != k by {
                assert(after[m].0@ != k);
            }
        }
    }
    let lhs = entry_map(after);
    let rhs = entry_map(entries).insert(key@, value);
    assert forall|k: K::V| lhs.contains_key(k) implies rhs.contains_key(k) && #[trigger] lhs[k]
        == rhs[k] by {
        let j = choose|j: int| first_at(after, k, j);
        lemma_first(after, k, j);
        lemma_first(entries, k, j);
        if k == key@ {
            lemma_first(after, k, i);
        } else {
            assert(j != i);
        }
    }
    lemma_first(after, key@, i);
    assert forall|k: K::V| #[trigger] rhs.contains_key(k) implies lhs.contains_key(k) by {
        if k != key@ {
            let j = choose|j: int| first_at(entries, k, j);
            lemma_first(after, k, j);
        }
    }
    assert(lhs =~= rhs);
}

proof fn lemma_pushed<K: KeyEq, V>(entries: Seq<(K, V)>, key: K, value: V)
    requires
        forall|j: int| 0 <= j < entries.len() ==> (#[trigger] entries[j]).0@ != key@,
    ensures
        entry_map(entries.push((key, value))) == entry_map(entries).insert(key@, value),
        !entry_map(entries).contains_key(key@),
{
    let n = entries.len() as int;
    let after = entries.push((key, value));
    assert forall|k: K::V, j: int| j < n implies (first_at(entries, k, j) <==> first_at(
        after,
        k,
        j,
    )) by {
        if first_at(entries, k, j) {
            assert forall|m: int| 0 <= m < j implies (#[trigger] after[m]).0@ != k by {
                assert(entries[m].0@ != k);
            }
        }
        if first_at(after, k, j) {
            assert forall|m: int| 0 <= m < j implies (#[trigger] entries[m]).0@ != k by {
                assert(after[m].0@ != k);
            }
        }
    }
    assert(first_at(after, key@, n)) by {
        assert forall|m: int| 0 <= m < n implies (#[trigger] after[m]).0@ != key@ by {
            assert(entries[m].0@ != key@);
        }
    }
    let lhs = entry_map(after);
    let rhs = entry_map(entries).insert(key@, value);
    lemma_first(after, key@, n);
    assert forall|k: K::V| lhs.contains_key(k) implies rhs.contains_key(k) && #[trigger] lhs[k]
        == rhs[k] by {
        let j = choose|j: int| first_at(after, k, j);
        lemma_first(after, k, j);
        if j < n {
            lemma_first(entries, k, j);
            assert(k != key@);
        }
    }
    assert forall|k: K::V| #[trigger] rhs.contains_key(k) implies lhs.contains_key(k) by {
        if k != key@ {
            let j = choose|j: int| first_at(entries, k, j);
            lemma_first(after, k, j);
        }
    }
    assert(lhs =~= rhs);
}

/// Whether two lists of entries stand for the same map but for one key.
spec fn same_but<K: KeyEq, V>(a: Seq<(K, V)>, b: Seq<(K, V)>, key: K::V) -> bool {
    forall|k: K::V|
        k != key ==> (#[trigger] entry_map(a).contains_key(k) <==> entry_map(b).contains_key(k))
            && (entry_map(a).contains_key(k) ==> entry_map(a)[k] == entry_map(b)[k])
}

proof fn lemma_removed<K: KeyEq, V>(entries: Seq<(K, V)>, i: int)
    requires
        0 <= i < entries.len(),
    ensures
        same_but(entries, entries.remove(i), entries[i].0@),
{
    let key = entries[i].0@;
    let after = entries.remove(i);
    assert forall|k: K::V| k != key implies (#[trigger] entry_map(entries).contains_key(k)
        <==> entry_map(after).contains_key(k)) && (entry_map(entries).contains_key(k) ==> entry_map(
        entries,
    )[k] == entry_map(after)[k]) by {
        if entry_map(entries).contains_key(k) {
            let j = choose|j: int| first_at(entries, k, j);
            let m = if j < i {
                j
            } else {
                j - 1
            };
            assert forall|n: int| 0 <= n < m implies (#[trigger] after[n]).0@ != k by {
                if n < i {
                    assert(entries[n].0@ != k);
                } else {
                    assert(entries[n + 1].0@ != k);
                }
            }
            assert(first_at(after, k, m));
            lemma_first(entries, k, j);
            lemma_first(after, k, m);
        }
        if entry_map(after).contains_key(k) {
            let m = choose|m: int| first_at(after, k, m);
            let j = if m < i {
                m
            } else {
                m + 1
            };
            assert forall|n: int| 0 <= n < j implies (#[trigger] entries[n]).0@ != k by {
                if n < i {
                    assert(after[n].0@ != k);
                } else if n > i {
                    assert(after[n - 1].0@ != k);
                }
            }
            assert(first_at(entries, k, j));
            lemma_first(entries, k, j);
        }
    }
}

impl<K: KeyEq, V> View for AssocMap<K, V> {
    type V = Map<K::V, V>;

    closed spec fn view(&self) -> Map<K::V, V> {
        entry_map(self.entries@)
    }
}

impl<K: KeyEq, V> AssocMap<K, V> {
    /// A map without entries.
    pub fn new() -> (map: Self)
        ensures
            map@ == Map::<K::V, V>::empty(),
    {
        let map = AssocMap { entries: Vec::new() };
        assert(map@ =~= Map::<K::V, V>::empty());
        map
    }

    fn find(&self, key: &K) -> (at: Option<usize>)
        ensures
            match at {
                Some(i) => first_at(self.entries@, key@, i as int),
                None => forall|j: int|
                    0 <= j < self.entries@.len() ==> (#[trigger] self.entries@[j]).0@ != key@,
            },
    {
        let mut i: usize = 0;
        while i < self.entries.len()
            invariant
                i <= self.entries.len(),
                forall|j: int| 0 <= j < i ==> (#[trigger] self.entries@[j]).0@ != key@,
            decreases self.entries.len() - i,
        {
            if self.entries[i].0.key_eq(key) {
                return Some(i);
            }
            i += 1;
        }
        None
    }

    /// The value under a key.
    pub fn get(&self, key: &K) -> (value: Option<&V>)
        ensures
            match value {
                Some(v) => self@.contains_key(key@) && self@[key@] == *v,
                None => !self@.contains_key(key@),
            },
    {
        match self.find(key) {
            Some(i) => {
                proof {
                    lemma_first(self.entries@, key@, i as int);
                }
                Some(&self.entries[i].1)
            },
            None => None,
        }
    }

    /// Whether there is a value under a key.
    pub fn contains_key(&self, key: &K) -> (found: bool)
        ensures
            found == self@.contains_key(key@),
    {
        self.get(key).is_some()
    }

    /// How many slots there are to walk through. Every key stands in one of them.
    pub closed spec fn slots(self) -> nat {
        self.entries@.len()
    }

    /// The key in a slot.
    pub closed spec fn slot_key(self, i: int) -> K::V {
        self.entries@[i].0@
    }

    /// How many slots there are to walk through.
    pub fn slot_count(&self) -> (n: usize)
        ensures
            n == self.slots(),
            forall|k: K::V| #[trigger]
                self@.contains_key(k) ==> exists|i: int|
                    0 <= i < self.slots() && #[trigger] self.slot_key(i) == k,
    {
        proof {
            assert forall|k: K::V| #[trigger] self@.contains_key(k) implies exists|i: int|
                0 <= i < self.slots() && #[trigger] self.slot_key(i) == k by {
                let i = choose|i: int| first_at(self.entries@, k, i);
                assert(self.slot_key(i) == k);
            }
        }
        self.entries.len()
    }

    /// The value under the key in a slot.
    pub fn slot_value(&self, i: usize) -> (value: &V)
        requires
            i < self.slots(),
        ensures
            self@.contains_key(self.slot_key(i as int)),
            *value == self@[self.slot_key(i as int)],
    {
        match self.find(&self.entries[i].0) {
            Some(at) => {
                proof {
                    lemma_first(self.entries@, self.slot_key(i as int), at as int);
                }
                &self.entries[at].1
            },
            None => {
                assert(self.entries@[i as int].0@ != self.entries@[i as int].0@);
                &self.entries[i].1
            },
        }
    }

    /// Whether no slot before this one has the same key.
    pub open spec fn first_slot(self, i: int) -> bool {
        forall|j: int| 0 <= j < i ==> #[trigger] self.slot_key(j) != self.slot_key(i)
    }

    /// Whether no slot before this one has the same key.
    pub fn is_first_slot(&self, i: usize) -> (b: bool)
        requires
            i < self.slots(),
        ensures
            b == self.first_slot(i as int),
    {
        match self.find(&self.entries[i].0) {
            Some(at) => {
                assert(self.slot_key(at as int) == self.slot_key(i as int));
                assert(at == i || !self.first_slot(i as int));
                at == i
            },
            None => {
                assert(self.entries@[i as int].0@ != self.entries@[i as int].0@);
                true
            },
        }
    }

    /// Puts a value under a key, in place of any that was there.
    pub fn insert(&mut self, key: K, value: V)
        ensures
            final(self)@ == old(self)@.insert(key@, value),
    {
        match self.find(&key) {
            Some(i) => {
                proof {
                    lemma_replaced(self.entries@, i as int, key, value);
                }
                self.entries.set(i, (key, value));
            },
            None => {
                proof {
                    lemma_pushed(self.entries@, key, value);
                }
                self.entries.push((key, value));
            },
        }
    }

    /// Removes whatever is under a key.
    pub fn remove(&mut self, key: &K)
        ensures
            final(self)@ == old(self)@.remove(key@),
    {
        let ghost before = self.entries@;
        let mut i: usize = 0;
        while i < self.entries.len()
            invariant
                i <= self.entries.len(),
                same_but(before, self.entries@, key@),
                forall|j: int| 0 <= j < i ==> (#[trigger] self.entries@[j]).0@ != key@,
            decreases self.entries.len() - i,
        {
            if self.entries[i].0.key_eq(key) {
                proof {
                    lemma_removed(self.entries@, i as int);
                }
                self.entries.remove(i);
            } else {
                i += 1;
            }
        }
        assert(self@ =~= entry_map(before).remove(key@)) by {
            assert(!self@.contains_key(key@));
            assert forall|k: K::V| self@.contains_key(k) <==> entry_map(before).remove(
                key@,
            ).contains_key(k) by {
                if k != key@ {
                    assert(entry_map(before).contains_key(k) <==> entry_map(
                        self.entries@,
                    ).contains_key(k));
                }
            }
            assert forall|k: K::V| self@.contains_key(k) implies #[trigger] self@[k] == entry_map(
                before,
            ).remove(key@)[k] by {
                assert(entry_map(before).contains_key(k) <==> entry_map(self.entries@).contains_key(
                    k,
                ));
            }
        }
    }

    /// Removes every entry.
    pub fn clear(&mut self)
        ensures
            final(self)@ == Map::<K::V, V>::empty(),
    {
        self.entries.clear();
        assert(self@ =~= Map::<K::V, V>::empty());
    }
}

proof fn lemma_same_entries<K: KeyEq, V>(a: Seq<(K, V)>, b: Seq<(K, V)>)
    requires
        a.len() == b.len(),
        forall|i: int| 0 <= i < a.len() ==> (#[trigger] a[i]).0@ == b[i].0@ && a[i].1 == b[i].1,
    ensures
        entry_map(a) == entry_map(b),
{
    assert forall|k: K::V, i: int| first_at(a, k, i) <==> first_at(b, k, i) by {
        if first_at(a, k, i) {
            assert forall|j: int| 0 <= j < i implies (#[trigger] b[j]).0@ != k by {
                assert(a[j].0@ != k);
            }
        }
        if first_at(b, k, i) {
            assert(a[i].0@ == b[i].0@);
            assert forall|j: int| 0 <= j < i implies (#[trigger] a[j]).0@ != k by {
                assert(b[j].0@ != k);
            }
        }
    }
    assert forall|k: K::V| #[trigger] entry_map(a).contains_key(k) implies entry_map(
        b,
    ).contains_key(k) && entry_map(a)[k] == entry_map(b)[k] by {
        let i = choose|i: int| first_at(a, k, i);
        lemma_first(a, k, i);
        lemma_first(b, k, i);
        assert(a[i].1 == b[i].1);
    }
    assert forall|k: K::V| #[trigger] entry_map(b).contains_key(k) implies entry_map(
        a,
    ).contains_key(k) by {
        let i = choose|i: int| first_at(b, k, i);
        lemma_first(a, k, i);
    }
    assert(entry_map(a) =~= entry_map(b));
}

impl<K: CopyKey, V: CopyValue> AssocMap<K, V> {
    /// A copy of the map.
    pub fn copy(&self) -> (out: Self)
        ensures
            out@ == self@,
    {
        let mut entries: Vec<(K, V)> = Vec::new();
        let mut i: usize = 0;
        while i < self.entries.len()
            invariant
                i <= self.entries.len(),
                entries@.len() == i,
                forall|j: int|
                    0 <= j < i ==> (#[trigger] entries@[j]).0@ == self.entries@[j].0@
                        && entries@[j].1 == self.entries@[j].1,
            decreases self.entries.len() - i,
        {
            entries.push((self.entries[i].0.copy_key(), self.entries[i].1.copy_value()));
            i += 1;
        }
        proof {
            lemma_same_entries(entries@, self.entries@);
        }
        AssocMap { entries }
    }
}

} // verus!
