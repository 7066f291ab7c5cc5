//! Direct writes that touched no row.

use vstd::prelude::*;

use crate::text::{decimal, decimal_string, str_eq};

verus! {

/// How many direct writes touched no row, by the kind of write.
#[derive(Debug, Clone, Copy, PartialEq, Eq, Structural)]
pub struct MissedRows {
    insert: usize,
    delete: usize,
    update: usize,
}

/// The counts of inserts, updates and deletes.
pub struct Counts {
    pub insert: nat,
    pub update: nat,
    pub delete: nat,
}

impl Counts {
    /// Both counts together.
    pub open spec fn plus(self, other: Counts) -> Counts {
        Counts {
            insert: self.insert + other.insert,
            update: self.update + other.update,
            delete: self.delete + other.delete,
        }
    }

    /// Whether the counts can be held.
    pub open spec fn fits(self) -> bool {
        self.insert <= usize::MAX && self.update <= usize::MAX && self.delete <= usize::MAX
    }

    /// One more of the kind that a command tag names; other tags count for
    /// nothing.
    pub open spec fn recorded(self, tag: Seq<char>) -> Counts {
        if tag == "UPDATE"@ {
            Counts { update: self.update + 1, ..self }
        } else if tag == "DELETE"@ {
            Counts { delete: self.delete + 1, ..self }
        } else if tag == "INSERT"@ {
            Counts { insert: self.insert + 1, ..self }
        } else {
            self
        }
    }

    /// The counts that are not zero, in words.
    pub open spec fn text(self) -> Seq<char> {
        let insert = if self.insert > 0 {
            "insert="@ + decimal(self.insert)
        } else {
            Seq::empty()
        };
        let update = if self.update > 0 {
            insert + (if self.insert > 0 {
                " "@
            } else {
                ""@
            }) + "update="@ + decimal(self.update)
        } else {
            insert
        };
        if self.delete > 0 {
            update + (if self.insert > 0 || self.update > 0 {
                " "@
            } else {
                ""@
            }) + "delete="@ + decimal(self.delete)
        } else {
            update
        }
    }
}

impl View for MissedRows {
    type V = Counts;

    closed spec fn view(&self) -> Counts {
        Counts {
            insert: self.insert as nat,
            update: self.update as nat,
            delete: self.delete as nat,
        }
    }
}

impl Default for MissedRows {
    fn default() -> (out: MissedRows)
        ensures
            out@ == (Counts { insert: 0, update: 0, delete: 0 }),
    {
        MissedRows { insert: 0, delete: 0, update: 0 }
    }
}

/// All counts of a list together.
pub open spec fn total(list: Seq<MissedRows>) -> Counts
    decreases list.len(),
{
    if list.len() == 0 {
        Counts { insert: 0, update: 0, delete: 0 }
    } else {
        total(list.drop_last()).plus(list.last()@)
    }
}

proof fn lemma_total_grows(list: Seq<MissedRows>, n: int)
    requires
        0 <= n <= list.len(),
    ensures
        total(list.take(n)).insert <= total(list).insert,
        total(list.take(n)).update <= total(list).update,
        total(list.take(n)).delete <= total(list).delete,
    decreases list.len(),
{
    if n == list.len() {
        assert(list.take(n) =~= list);
    } else {
        lemma_total_grows(list.drop_last(), n);
        assert(list.drop_last().take(n) =~= list.take(n));
    }
}

impl MissedRows {
    /// Whether any write touched no row.
    pub fn non_zero(&self) -> (b: bool)
        ensures
            b == (self@.insert > 0 || self@.update > 0 || self@.delete > 0),
    {
        self.insert > 0 || self.delete > 0 || self.update > 0
    }

    /// The counts of inserts, updates and deletes.
    pub fn counts(&self) -> (out: (usize, usize, usize))
        ensures
            out.0 == self@.insert,
            out.1 == self@.update,
            out.2 == self@.delete,
    {
        (self.insert, self.update, self.delete)
    }

    /// Counts a direct write that touched no row, by its command tag.
    pub fn record(&mut self, tag: &str)
        requires
            old(self)@.recorded(tag@).fits(),
        ensures
            final(self)@ == old(self)@.recorded(tag@),
    {
        if str_eq(tag, "UPDATE") {
            self.update += 1;
        } else if str_eq(tag, "DELETE") {
            self.delete += 1;
        } else if str_eq(tag, "INSERT") {
            self.insert += 1;
        }
    }

    /// Adds another shard's counts.
    pub fn merge(&mut self, other: MissedRows)
        requires
            old(self)@.plus(other@).fits(),
        ensures
            final(self)@ == old(self)@.plus(other@),
    {
        self.insert += other.insert;
        self.update += other.update;
        self.delete += other.delete;
    }

    /// The counts of all shards together.
    pub fn merge_all(list: &Vec<MissedRows>) -> (out: MissedRows)
        requires
            total(list@).fits(),
        ensures
            out@ == total(list@),
    {
        let mut out: MissedRows = MissedRows::default();
        let mut i: usize = 0;
        assert(list@.take(0).len() == 0);
        while i < list.len()
            invariant
                i <= list.len(),
                total(list@).fits(),
                out@ == total(list@.take(i as int)),
            decreases list.len() - i,
        {
            proof {
                assert(list@.take(i + 1).drop_last() =~= list@.take(i as int));
                lemma_total_grows(list@, i + 1);
            }
            out.merge(list[i]);
            i += 1;
        }
        assert(list@.take(list@.len() as int) =~= list@);
        out
    }

    /// The counts that are not zero, in words.
    pub fn to_text(&self) -> (out: String)
        ensures
            out@ == self@.text(),
    {
        let mut out: String = String::new();
        let mut written: bool = false;
        assert(out@ =~= Seq::<char>::empty());
        if self.insert > 0 {
            out.append("insert=");
            out.append(decimal_string(self.insert as u128).as_str());
            written = true;
            assert(out@ =~= "insert="@ + decimal(self.insert as nat));
        }
        if self.update > 0 {
            out.append(
                if written {
                    " "
                } else {
                    ""
                },
            );
            out.append("update=");
            out.append(decimal_string(self.update as u128).as_str());
            written = true;
        }
        if self.delete > 0 {
            out.append(
                if written {
                    " "
                } else {
                    ""
                },
            );
            out.append("delete=");
            out.append(decimal_string(self.delete as u128).as_str());
        }
        out
    }
}

/// It does not matter in which order the counts of two shards are added.
pub proof fn law_merge_commutes(a: MissedRows, b: MissedRows)
    ensures
        a@.plus(b@) == b@.plus(a@),
{
}

} // verus!
