//! What the small operations on rows, tables, routes and positions give.

use std::sync::Arc;
use vstd::prelude::*;

use super::change_laws::{carries, completes, without_nulls, without_toasted};
use super::data_sync::{DataSync, SyncStage};
use super::error::{Error, TwoPcTransaction};
use super::hybrid::HybridNullTable;
use super::missed_rows::MissedRows;
use super::presence::NonIdentityColumnsPresence;
use super::publication::{shard_of, validate_row_filters};
use super::publisher::Publisher;
use super::routing::{targets, OmniOwnership, Shard};
use super::statements::ParseView;
use super::stream::StreamSubscriber;
use super::stream_loop::ReplicationLoop;
use super::table::{PublicationTable, Table};
use super::tuple::{Bind, Delete, TupleData};
use crate::cluster::{Cluster, Databases, ServerAuth};
use crate::sharded_tables::{ShardedTables, SystemCatalogsBehavior};

verus! {

/// The parameters of a statement are the values of a row, one by one.
pub proof fn law_rows_become_parameters(row: TupleData, name: &'static str, out: Bind)
    requires
        call_ensures(TupleData::to_bind, (&row, name), out),
    ensures
        carries(out@, (ParseView { name: name@, query: Seq::empty() }), row@),
{
}

/// What can be asked of a row: whether a value, or every value, was not sent; which
/// values were, and which are not NULL, in order.
pub proof fn law_rows_are_told_apart(
    row: TupleData,
    some: bool,
    all: bool,
    sent: TupleData,
    there: TupleData,
)
    requires
        call_ensures(TupleData::has_toasted, (&row,), some),
        call_ensures(TupleData::all_toasted, (&row,), all),
        call_ensures(TupleData::partial, (&row,), sent),
        call_ensures(TupleData::non_null, (&row,), there),
    ensures
        some <==> exists|i: int| 0 <= i < row@.len() && (#[trigger] row@[i]).identifier is Toasted,
        all <==> forall|i: int| 0 <= i < row@.len() ==> (#[trigger] row@[i]).identifier is Toasted,
        sent@ == without_toasted(row@),
        there@ == without_nulls(row@),
{
    super::change_laws::lemma_without(row@);
    if super::tuple::some_toasted(row@) {
        let i = choose|i: int|
            0 <= i < row@.len() && (#[trigger] row@[i]).identifier
                == super::tuple::Identifier::Toasted;
        assert(row@[i].identifier is Toasted);
    }
    if exists|i: int| 0 <= i < row@.len() && (#[trigger] row@[i]).identifier is Toasted {
        let i = choose|i: int|
            0 <= i < row@.len() && (#[trigger] row@[i]).identifier is Toasted;
        assert(row@[i].identifier == super::tuple::Identifier::Toasted);
    }
}

/// Two rows are put one behind the other, and one is filled in from another of the same
/// length.
pub proof fn law_rows_are_put_together(
    a: TupleData,
    b: TupleData,
    both: TupleData,
    filled: Option<TupleData>,
)
    requires
        call_ensures(TupleData::followed_by, (&a, &b), both),
        call_ensures(TupleData::fill_toasted_from, (&a, &b), filled),
    ensures
        both@ == a@ + b@,
        filled is Some <==> a@.len() == b@.len(),
        filled matches Some(t) ==> completes(t@, a@, b@),
{
}

/// A deleted row is found by the values of its key that are there.
pub proof fn law_keys_of_deleted_rows(delete: Delete, out: Option<TupleData>)
    requires
        call_ensures(Delete::key_non_null, (&delete,), out),
    ensures
        out is Some <==> delete.key is Some,
        out matches Some(t) ==> t@ == without_nulls(delete.key->0@),
{
    if let Some(key) = delete.key {
        super::change_laws::lemma_without(key@);
    }
}

/// What can be asked of the flags of a row.
pub proof fn law_flags_are_asked(
    p: NonIdentityColumnsPresence,
    i: usize,
    set: bool,
    none: bool,
    all: bool,
)
    requires
        call_ensures(NonIdentityColumnsPresence::is_set, (&p, i), set),
        call_ensures(NonIdentityColumnsPresence::no_non_identity_present, (&p,), none),
        call_ensures(NonIdentityColumnsPresence::is_all_present, (&p,), all),
    ensures
        set <==> i < p@.len() && p@[i as int],
        none && i < p@.len() ==> !p@[i as int],
        all && i < p@.len() ==> p@[i as int],
        !none ==> exists|k: int| 0 <= k < p@.len() && #[trigger] p@[k],
        !all ==> exists|k: int| 0 <= k < p@.len() && !(#[trigger] p@[k]),
{
}

/// A route is to one shard or not, and two routes are the same where they name the same
/// shards.
pub proof fn law_routes_are_told_apart(a: Shard, b: Shard, direct: bool, same: bool)
    requires
        call_ensures(Shard::is_direct, (&a,), direct),
        call_ensures(Shard::same, (&a, &b), same),
    ensures
        direct <==> a@ is Direct,
        a@ is Direct && b@ is Direct ==> (same <==> a@->Direct_0 == b@->Direct_0),
        a@ is All ==> (same <==> b@ is All),
        a@ is Direct ==> (same ==> b@ is Direct),
        a@ == b@ ==> same,
{
}

/// Which shards a write goes to is told from its route alone, for each subscriber.
pub proof fn law_targets_are_meant(
    route: Shard,
    connections: usize,
    share: OmniOwnership,
    out: Vec<usize>,
    owns: bool,
    shard: usize,
)
    requires
        call_ensures(targets, (&route, connections, &share), out),
        call_ensures(OmniOwnership::owns, (&share, shard), owns),
    ensures
        owns <==> share.sources > 0 && shard % share.sources == share.source,
        out@.contains(shard) <==> super::write_laws::is_meant(route@, connections, share, shard),
        forall|j: int, k: int| 0 <= j < k < out@.len() ==> out@[j] < out@[k],
{
    super::routing::law_writes_go_where_they_are_meant_to(
        route@,
        connections as nat,
        share,
        shard,
    );
}

/// A filter is for a table by its name, and by its schema where the filter has one.
pub proof fn law_filters_are_matched(
    h: HybridNullTable,
    schema: &'static str,
    name: &'static str,
    b: bool,
)
    requires
        call_ensures(HybridNullTable::matches, (&h, schema, name), b),
    ensures
        b <==> h.name@ == name@ && (h.schema is None || h.schema->0@ == schema@),
{
}

/// The destination of a table is its parent, part by part, where it has one.
pub proof fn law_partitions_go_to_their_parent(
    t: PublicationTable,
    schema: &'static str,
    name: &'static str,
    out: String,
)
    requires
        call_ensures(PublicationTable::destination_schema, (&t,), schema),
        call_ensures(PublicationTable::destination_name, (&t,), name),
        call_ensures(PublicationTable::destination, (&t,), out),
    ensures
        schema@ == (if t@.parent_schema.len() == 0 {
            t@.schema
        } else {
            t@.parent_schema
        }),
        name@ == (if t@.parent_name.len() == 0 {
            t@.name
        } else {
            t@.parent_name
        }),
        out@ == crate::text::qualified(schema@, name@),
{
}

/// The replica identity FULL is written `f`.
pub proof fn law_full_identity_is_told(t: Table, b: bool)
    requires
        call_ensures(Table::is_identity_full, (&t,), b),
    ensures
        b <==> t@.identity == "f"@,
{
}

/// A publication with row filters is refused; it has some where the count says so.
pub proof fn law_row_filters_are_refused(
    name: &'static str,
    counts: Vec<i64>,
    out: Result<(), Error>,
)
    requires
        call_ensures(validate_row_filters, (name, &counts), out),
    ensures
        out is Err <==> counts@.len() > 0 && counts@[0] > 0,
        out matches Err(e) ==> e is PublicationHasRowFilter,
{
}

/// A shard is looked up by its number.
pub proof fn law_shards_are_looked_up(
    cluster: Cluster,
    n: usize,
    out: Result<&crate::cluster::Shard, Error>,
)
    requires
        call_ensures(shard_of, (&cluster, n), out),
    ensures
        out is Ok <==> n < cluster.shards@.len(),
        out matches Ok(shard) ==> *shard == *cluster.shards@[n as int],
{
}

/// A configured cluster is looked up by its name.
pub proof fn law_clusters_are_looked_up(
    databases: Databases,
    name: String,
    out: Result<Arc<Cluster>, Error>,
)
    requires
        call_ensures(Databases::schema_owner, (&databases, &name), out),
    ensures
        out is Ok <==> databases@.contains_key(name@),
        out matches Ok(cluster) ==> cluster == databases@[name@],
{
}

/// Rows were missed where some count is not zero.
pub proof fn law_some_rows_were_missed(m: MissedRows, b: bool, counts: (usize, usize, usize))
    requires
        call_ensures(MissedRows::non_zero, (&m,), b),
        call_ensures(MissedRows::counts, (&m,), counts),
    ensures
        b <==> !(counts.0 == 0 && counts.1 == 0 && counts.2 == 0),
        counts.0 == m@.insert && counts.1 == m@.update && counts.2 == m@.delete,
{
}

/// The transaction that is left to clean up is the one that the error names.
pub proof fn law_transactions_left_behind(e: Error, out: Option<TwoPcTransaction>)
    requires
        call_ensures(Error::two_pc_cleanup_transaction, (&e,), out),
    ensures
        out is Some <==> e is TwoPcCleanupPending,
        e matches Error::TwoPcCleanupPending { transaction, .. } ==> out == Some(transaction),
{
}

/// Setting the position moves what is reported too, and nothing else.
pub proof fn law_positions_are_set(s: &mut StreamSubscriber, lsn: i64, changed: bool)
    requires
        call_ensures(StreamSubscriber::set_current_lsn, (s, lsn), changed),
    ensures
        final(s)@.lsn == lsn,
        final(s)@.committed_lsn == lsn,
        changed <==> old(s)@.lsn != lsn,
        final(s)@.table_lsns == old(s)@.table_lsns,
        final(s)@.tables == old(s)@.tables,
        final(s)@.in_transaction == old(s)@.in_transaction,
        final(s)@.connections == old(s)@.connections,
{
}

/// Dropping the connections keeps everything that was learnt over them, so that a
/// transaction can be gone on with.
pub proof fn law_connections_are_dropped(s: &mut StreamSubscriber, out: ())
    requires
        call_ensures(StreamSubscriber::reset_connections, (s,), out),
    ensures
        final(s)@.connections == 0,
        super::change_laws::untouched(
            (super::stream::State { connections: 0, ..old(s)@ }),
            final(s)@,
        ),
        final(s)@.task == old(s)@.task,
{
}

/// A copy checks and copies, a stream streams; both load the tables of every shard
/// first.
pub proof fn law_copies_and_streams_start_with_the_tables(
    shards: usize,
    copy: DataSync,
    stream: DataSync,
    listens: bool,
    tries: usize,
    l: ReplicationLoop,
)
    requires
        call_ensures(Publisher::data_sync, (shards,), copy),
        call_ensures(Publisher::replicate, (shards,), stream),
        call_ensures(ReplicationLoop::new, (tries,), l),
        call_ensures(ReplicationLoop::listens_for_stop, (&l,), listens),
    ensures
        copy.copies && !stream.copies,
        copy.shards == shards && stream.shards == shards,
        copy.stage == SyncStage::Load && stream.stage == SyncStage::Load,
        listens,
        l.attempt == 0 && l.max_attempts == tries,
{
}

/// How a table on every shard is routed is what was configured for it; what is not
/// configured is not known. The system's own tables are sharded where configured so.
pub proof fn law_omni_tables_are_routed_as_configured(
    rules: ShardedTables,
    name: String,
    out: Option<bool>,
    default: bool,
    catalogs: bool,
)
    requires
        call_ensures(ShardedTables::is_omnisharded_sticky, (&rules, &name), out),
        call_ensures(ShardedTables::is_omnisharded_sticky_default, (&rules,), default),
        call_ensures(ShardedTables::is_system_catalog_sharded, (&rules,), catalogs),
    ensures
        out is Some <==> rules.omni().contains_key(name@),
        out matches Some(sticky) ==> sticky == rules.omni()[name@],
        default == rules.sticky_default(),
        catalogs <==> rules.catalogs() == SystemCatalogsBehavior::Sharded,
{
}

/// Who connects is known to a server by a password, or by other means.
pub proof fn law_other_means_than_a_password(auth: ServerAuth, b: bool)
    requires
        call_ensures(ServerAuth::is_external_identity, (&auth,), b),
    ensures
        b <==> auth == ServerAuth::RdsIam || auth == ServerAuth::AzureWorkloadIdentity,
{
}

} // verus!
