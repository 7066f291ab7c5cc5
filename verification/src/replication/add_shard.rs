//! Guards for adding a shard to a live cluster.
//!
//! Growing a cluster in place is only safe when no table's placement depends on
//! the number of shards: hash routing moves every row when the number changes,
//! which is what resharding is for. Lookups that give the shard and explicit
//! mappings are stable.

use vstd::prelude::*;

use super::error::Error;
use crate::cluster::Cluster;
use crate::sharded_tables::{LookupResult, ShardedTable};
use crate::text::{around, signed_decimal, signed_decimal_string, str_eq};

verus! {

/// Key of the advisory lock taken on the new shard (ASCII "pgdog_ad"): it decides
/// which instance adds the shard when several share the same config.
pub const ADD_SHARD_LOCK: i64 = 0x7067646f675f6164;

/// Whether a table's placement survives a change of the number of shards.
pub open spec fn stable(table: ShardedTable) -> bool {
    (table.lookup_result == LookupResult::Shard || table.mapping is Some) && table.centroids == 0
}

/// How a table is named in an error: by its column, where it has no name.
pub open spec fn label(table: ShardedTable) -> Seq<char> {
    match table.name {
        Some(name) => name@,
        None => "column \""@ + table.column@ + "\""@,
    }
}

fn table_label(table: &ShardedTable) -> (out: String)
    ensures
        out@ == label(*table),
{
    match &table.name {
        Some(name) => name.clone(),
        None => around("column \"", table.column.as_str(), "\""),
    }
}

/// Checks that every sharded table is routed by a lookup that gives the shard or
/// by an explicit mapping, and none by centroids. The first that is not is
/// refused.
pub fn placement_stable(cluster: &Cluster) -> (out: Result<(), Error>)
    ensures
        ({
            let tables = cluster.sharded_tables.rules();
            match out {
                Ok(_) => forall|i: int| 0 <= i < tables.len() ==> stable(#[trigger] tables[i]),
                Err(Error::PlacementNotStable(name)) => exists|i: int|
                    0 <= i < tables.len() && !stable(#[trigger] tables[i]) && name@ == label(
                        tables[i],
                    ) && forall|j: int| 0 <= j < i ==> stable(#[trigger] tables[j]),
                Err(_) => false,
            }
        }),
{
    let tables: &Vec<ShardedTable> = cluster.sharded_tables.tables();
    let mut i: usize = 0;
    while i < tables.len()
        invariant
            i <= tables.len(),
            tables@ == cluster.sharded_tables.rules(),
            forall|j: int| 0 <= j < i ==> stable(#[trigger] tables@[j]),
        decreases tables.len() - i,
    {
        let table: &ShardedTable = &tables[i];
        if !(table.lookup_result == LookupResult::Shard || table.mapping.is_some()) {
            return Err(Error::PlacementNotStable(table_label(table)));
        }
        if table.centroids != 0 {
            return Err(Error::PlacementNotStable(table_label(table)));
        }
        i += 1;
    }
    Ok(())
}

/// The query that takes the lock on the new shard.
pub open spec fn lock_sql() -> Seq<char> {
    "SELECT pg_try_advisory_lock("@ + signed_decimal(ADD_SHARD_LOCK as int) + ")"@
}

/// The query that takes the lock on the new shard. It is held for as long as the
/// session that took it.
pub fn provisioning_lock_query() -> (out: String)
    ensures
        out@ == lock_sql(),
{
    around(
        "SELECT pg_try_advisory_lock(",
        signed_decimal_string(ADD_SHARD_LOCK).as_str(),
        ")",
    )
}

/// Whether the lock was taken, by the rows that the query gave: the first has to
/// say so.
pub fn provisioning_lock(rows: &Vec<String>) -> (out: Result<(), Error>)
    ensures
        match out {
            Ok(_) => rows@.len() > 0 && rows@[0]@ == "t"@,
            Err(e) => e is ProvisioningLocked && !(rows@.len() > 0 && rows@[0]@ == "t"@),
        },
{
    if rows.len() > 0 && str_eq(rows[0].as_str(), "t") {
        Ok(())
    } else {
        Err(Error::ProvisioningLocked)
    }
}

/// The query that lists the tables of a shard, other than the system's and ours.
pub fn destination_tables_query() -> (out: &'static str)
    ensures
        out@
            == "SELECT table_schema || '.' || table_name FROM information_schema.tables WHERE table_schema NOT IN ('pg_catalog', 'information_schema', 'pgdog', 'pgdog_fleet') AND table_type = 'BASE TABLE'"@,
{
    "SELECT table_schema || '.' || table_name FROM information_schema.tables WHERE table_schema NOT IN ('pg_catalog', 'information_schema', 'pgdog', 'pgdog_fleet') AND table_type = 'BASE TABLE'"
}

/// Checks that the new shard has no tables: the copy assumes a blank destination
/// and does not guess at what an earlier try left behind.
pub fn destination_is_empty(tables: &Vec<String>) -> (out: Result<(), Error>)
    ensures
        match out {
            Ok(_) => tables@.len() == 0,
            Err(Error::DestinationNotEmpty(n)) => tables@.len() > 0 && n == tables@.len(),
            Err(_) => false,
        },
{
    if tables.len() == 0 {
        Ok(())
    } else {
        Err(Error::DestinationNotEmpty(tables.len()))
    }
}

} // verus!
