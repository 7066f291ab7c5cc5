//! Clusters as the replication code sees them: shards, their connection pools
//! and the tables sharded across them.

use std::sync::Arc;
use vstd::prelude::*;

use crate::assoc::AssocMap;
use crate::replication::error::{BackendError, Error, PoolError};
use crate::sharded_tables::ShardedTables;

verus! {

/// `Arc::clone` gives another pointer to the same value.
#[verifier::external_body]
pub(crate) fn share<T>(a: &Arc<T>) -> (out: Arc<T>)
    ensures
        out == *a,
{
    a.clone()
}

/// The part a database plays in its shard.
#[derive(Debug, Clone, Copy, PartialEq, Eq, Structural)]
pub enum Role {
    Primary,
    Replica,
    Auto,
}

/// How a server knows who connects.
#[derive(Debug, Clone, Copy, PartialEq, Eq, Structural)]
pub enum ServerAuth {
    Password,
    RdsIam,
    AzureWorkloadIdentity,
}

impl ServerAuth {
    /// Whether the identity comes from a cloud provider.
    pub open spec fn external_identity(self) -> bool {
        self != ServerAuth::Password
    }

    /// Whether the identity comes from a cloud provider.
    pub fn is_external_identity(&self) -> (b: bool)
        ensures
            b == self.external_identity(),
    {
        match self {
            ServerAuth::Password => false,
            ServerAuth::RdsIam => true,
            ServerAuth::AzureWorkloadIdentity => true,
        }
    }
}

/// Where a database is.
#[derive(Debug)]
pub struct Address {
    pub host: String,
    pub port: u16,
    pub user: String,
    pub database_name: String,
    pub server_auth: ServerAuth,
}

/// Connections to one database.
#[derive(Debug)]
pub struct Pool {
    pub addr: Address,
    pub role: Role,
    /// Whether the database is there for copying tables alone.
    pub resharding_only: bool,
}

/// A shard and its databases.
#[derive(Debug)]
pub struct Shard {
    pub pools: Vec<Pool>,
}

/// A database and its shards.
#[derive(Debug)]
pub struct Cluster {
    pub name: String,
    /// The name under which the cluster is configured.
    pub database: String,
    pub shards: Vec<Arc<Shard>>,
    pub sharded_tables: ShardedTables,
    /// Whether cross-shard writes are committed in two phases.
    pub two_pc_enabled: bool,
}

/// The first pool of a shard that serves its primary.
pub open spec fn first_primary(shard: Shard, i: int) -> bool {
    &&& 0 <= i < shard.pools@.len()
    &&& shard.pools@[i].role == Role::Primary
    &&& forall|j: int| 0 <= j < i ==> (#[trigger] shard.pools@[j]).role != Role::Primary
}

impl Shard {
    /// Whether the shard has a primary.
    pub open spec fn has_primary(self) -> bool {
        exists|i: int| #[trigger] first_primary(self, i)
    }

    /// The position of the primary among the shard's pools.
    pub fn primary(&self) -> (out: Option<usize>)
        ensures
            match out {
                Some(i) => first_primary(*self, i as int),
                None => !self.has_primary(),
            },
    {
        let mut i: usize = 0;
        while i < self.pools.len()
            invariant
                i <= self.pools.len(),
                forall|j: int| 0 <= j < i ==> (#[trigger] self.pools@[j]).role != Role::Primary,
            decreases self.pools.len() - i,
        {
            if self.pools[i].role == Role::Primary {
                return Some(i);
            }
            i += 1;
        }
        None
    }
}

/// Whether a cluster is another one with a single shard of it.
pub open spec fn shows_shard(view: Cluster, of: Cluster, shard: int) -> bool {
    &&& view.name == of.name
    &&& view.database == of.database
    &&& view.shards@ == seq![of.shards@[shard]]
    &&& view.sharded_tables == of.sharded_tables
    &&& view.two_pc_enabled == of.two_pc_enabled
}

impl Cluster {
    /// The cluster as if it had one of its shards alone.
    pub fn shard_view(&self, shard: usize) -> (out: Result<Cluster, Error>)
        ensures
            match out {
                Ok(view) => shard < self.shards@.len() && shows_shard(view, *self, shard as int),
                Err(Error::Pool(PoolError::NoShard(n))) => shard >= self.shards@.len() && n
                    == shard,
                Err(_) => false,
            },
    {
        if shard >= self.shards.len() {
            return Err(Error::Pool(PoolError::NoShard(shard)));
        }
        let mut shards: Vec<Arc<Shard>> = Vec::new();
        shards.push(share(&self.shards[shard]));
        assert(shards@ =~= seq![self.shards@[shard as int]]);
        Ok(
            Cluster {
                name: self.name.clone(),
                database: self.database.clone(),
                shards,
                sharded_tables: self.sharded_tables.clone(),
                two_pc_enabled: self.two_pc_enabled,
            },
        )
    }
}

/// The configured clusters, by the name of their database.
#[derive(Debug)]
pub struct Databases {
    clusters: AssocMap<String, Arc<Cluster>>,
}

impl View for Databases {
    type V = Map<Seq<char>, Arc<Cluster>>;

    closed spec fn view(&self) -> Map<Seq<char>, Arc<Cluster>> {
        self.clusters@
    }
}

impl Databases {
    /// No clusters.
    pub fn new() -> (out: Databases)
        ensures
            out@ == Map::<Seq<char>, Arc<Cluster>>::empty(),
    {
        Databases { clusters: AssocMap::new() }
    }

    /// Puts a cluster under a name, in place of any that was there.
    pub fn insert(&mut self, database: String, cluster: Arc<Cluster>)
        ensures
            final(self)@ == old(self)@.insert(database@, cluster),
    {
        self.clusters.insert(database, cluster);
    }

    /// The cluster under a name, as its schema owner sees it.
    pub fn schema_owner(&self, database: &String) -> (out: Result<Arc<Cluster>, Error>)
        ensures
            match out {
                Ok(c) => self@.contains_key(database@) && c == self@[database@],
                Err(Error::Backend(BackendError::NoDatabase(name))) => !self@.contains_key(
                    database@,
                ) && name@ == database@,
                Err(_) => false,
            },
    {
        match self.clusters.get(database) {
            Some(c) => Ok(share(c)),
            None => Err(Error::Backend(BackendError::NoDatabase(database.clone()))),
        }
    }
}

} // verus!
