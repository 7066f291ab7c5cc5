//! Sharded tables whose NULL-key rows replicate to every shard.

use vstd::prelude::*;

use crate::text::str_eq;

verus! {

/// A sharded table configured with `broadcast_null`: rows whose sharding key is
/// NULL exist on every shard, and ADD SHARD copies and replicates exactly those
/// rows to the new shard.
#[derive(Debug, Clone)]
pub struct HybridNullTable {
    /// Schema the config names; any, where it names none.
    pub schema: Option<String>,
    pub name: String,
    /// The sharding key column: only rows where it's NULL replicate.
    pub column: String,
}

impl HybridNullTable {
    /// Whether this entry covers the given table.
    pub open spec fn covers(self, schema: Seq<char>, name: Seq<char>) -> bool {
        self.name@ == name && (self.schema matches Some(s) ==> s@ == schema)
    }

    /// Whether this entry covers the given table.
    pub fn matches(&self, schema: &str, name: &str) -> (b: bool)
        ensures
            b == self.covers(schema@, name@),
    {
        if !str_eq(self.name.as_str(), name) {
            return false;
        }
        match &self.schema {
            Some(s) => str_eq(s.as_str(), schema),
            None => true,
        }
    }
}

} // verus!
