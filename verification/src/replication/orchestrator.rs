//! Drives a migration from one cluster to another: what both ends are, and when
//! traffic moves over.

use std::collections::HashMap;
use std::sync::Arc;
use vstd::prelude::*;
use vstd::std_specs::iter::IteratorSpec;

use super::error::{Error, PoolError};
use super::publisher::{Publisher, PublisherView};
use super::schema_sync::no_database;
use crate::cluster::{shows_shard, Cluster, Databases};
use crate::text::{around, lower, lower_char, to_chars};

verus! {

/// Settings of a cutover. Times are in milliseconds, distances in bytes.
#[derive(Debug, Clone, Copy, PartialEq, Eq, Structural)]
pub struct CutoverConfig {
    /// How close replication has to be before traffic is paused.
    pub traffic_stop_threshold: u64,
    /// How close it has to be before traffic is moved.
    pub replication_lag_threshold: u64,
    /// How long the source has to have been quiet for traffic to be moved anyway.
    pub last_transaction_delay: u64,
    /// How long traffic is paused at most.
    pub timeout: u64,
    pub timeout_action: CutoverTimeoutAction,
}

/// What is done when traffic has been paused for too long.
#[derive(Debug, Clone, Copy, PartialEq, Eq, Structural)]
pub enum CutoverTimeoutAction {
    Abort,
    Cutover,
}

/// Why traffic is moved.
#[derive(Debug, Clone, Copy, PartialEq, Eq, Structural)]
pub enum CutoverReason {
    Lag,
    Timeout,
    LastTransaction,
}

impl CutoverReason {
    /// The reason in words.
    pub fn to_text(&self) -> (out: &'static str)
        ensures
            out@ == match *self {
                CutoverReason::Lag => "lag"@,
                CutoverReason::Timeout => "timeout"@,
                CutoverReason::LastTransaction => "last_transaction"@,
            },
    {
        match self {
            CutoverReason::Lag => "lag",
            CutoverReason::Timeout => "timeout",
            CutoverReason::LastTransaction => "last_transaction",
        }
    }
}

/// How far a cutover has got. Times are in nanoseconds.
#[derive(Debug, Clone, Copy, PartialEq, Eq, Structural)]
pub struct CutoverData {
    pub lag: u64,
    pub last_transaction: Option<u128>,
    pub elapsed: u128,
}

/// Whether traffic is moved.
#[derive(Debug, Clone, Copy, PartialEq, Eq, Structural)]
pub enum CutoverAction {
    Go(CutoverReason),
    NoGo(CutoverData),
}

/// Milliseconds in nanoseconds.
pub open spec fn millis(ms: u64) -> nat {
    ms as nat * 1_000_000
}

/// Whether traffic is moved: it has been paused too long, replication is close
/// enough, or the source has been quiet for long enough. A shard whose distance is
/// not known is not close.
pub open spec fn cutover_decision(
    config: CutoverConfig,
    lag: Option<u64>,
    last_transaction: Option<u128>,
    elapsed: u128,
) -> CutoverAction {
    if elapsed >= millis(config.timeout) {
        CutoverAction::Go(CutoverReason::Timeout)
    } else if lag is Some && lag->0 <= config.replication_lag_threshold {
        CutoverAction::Go(CutoverReason::Lag)
    } else if last_transaction is None || last_transaction->0 > millis(
        config.last_transaction_delay,
    ) {
        CutoverAction::Go(CutoverReason::LastTransaction)
    } else {
        CutoverAction::NoGo(
            CutoverData {
                lag: match lag {
                    Some(lag) => lag,
                    None => u64::MAX,
                },
                last_transaction,
                elapsed,
            },
        )
    }
}

/// Decides whether traffic is moved.
pub fn should_cutover(
    config: &CutoverConfig,
    lag: Option<u64>,
    last_transaction: Option<u128>,
    elapsed: u128,
) -> (out: CutoverAction)
    ensures
        out == cutover_decision(*config, lag, last_transaction, elapsed),
{
    if elapsed >= config.timeout as u128 * 1_000_000 {
        return CutoverAction::Go(CutoverReason::Timeout);
    }
    match lag {
        Some(lag) => {
            if lag <= config.replication_lag_threshold {
                return CutoverAction::Go(CutoverReason::Lag);
            }
        },
        None => {},
    }
    match last_transaction {
        Some(t) => {
            if t > config.last_transaction_delay as u128 * 1_000_000 {
                return CutoverAction::Go(CutoverReason::LastTransaction);
            }
        },
        None => {
            return CutoverAction::Go(CutoverReason::LastTransaction);
        },
    }
    CutoverAction::NoGo(
        CutoverData {
            lag: match lag {
                Some(lag) => lag,
                None => u64::MAX,
            },
            last_transaction,
            elapsed,
        },
    )
}

/// Whether a number is the largest of a set.
pub open spec fn largest(values: Set<i64>, m: i64) -> bool {
    values.contains(m) && forall|v: i64| values.contains(v) ==> v <= m
}

fn largest_lag(lag: &HashMap<usize, i64>) -> (out: Option<i64>)
    ensures
        match out {
            Some(m) => largest(lag@.values(), m),
            None => lag@.values() == Set::<i64>::empty(),
        },
{
    broadcast use vstd::std_specs::hash::group_hash_axioms;

    let ghost all = vstd::std_specs::hash::spec_values_iter(lag).remaining().unref();
    let mut out: Option<i64> = None;
    for v in it: lag.values()
        invariant
            it.seq().unref() == all,
            match out {
                Some(m) => all.take(it.index() as int).contains(m) && forall|j: int|
                    0 <= j < it.index() ==> all[j] <= m,
                None => it.index() == 0,
            },
    {
        let ghost i = it.index();
        assert(*v == all[i as int]);
        assert(all.take(i + 1) =~= all.take(i as int).push(*v));
        match out {
            Some(m) => {
                proof {
                    vstd::seq_lib::lemma_seq_contains_after_push(all.take(i as int), *v, m);
                    vstd::seq_lib::lemma_seq_contains_after_push(all.take(i as int), *v, *v);
                }
                if *v > m {
                    out = Some(*v);
                }
            },
            None => {
                proof {
                    vstd::seq_lib::lemma_seq_contains_after_push(all.take(i as int), *v, *v);
                }
                out = Some(*v);
            },
        }
    }
    proof {
        assert(all.take(all.len() as int) =~= all);
        assert forall|v: i64| lag@.values().contains(v) <==> all.contains(v) by {
            assert(all.to_set().contains(v) <==> all.contains(v));
        }
        match out {
            Some(m) => {
                assert forall|v: i64| lag@.values().contains(v) implies v <= m by {
                    let j = all.index_of(v);
                    assert(all[j] == v);
                }
            },
            None => {
                assert(lag@.values() =~= Set::<i64>::empty());
            },
        }
    }
    out
}

/// The name of a replication slot, with a random part in lower case.
pub open spec fn slot_name(random: Seq<char>) -> Seq<char> {
    "__pgdog_repl_"@ + lower(random)
}

fn to_lower(c: char) -> (out: char)
    ensures
        out == lower_char(c),
{
    if 'A' <= c && c <= 'Z' {
        let b: u8 = c as u8;
        (b + 32) as char
    } else {
        c
    }
}

fn random_slot_name(random: &str) -> (out: String)
    ensures
        out@ == slot_name(random@),
{
    let chars: Vec<char> = to_chars(random);
    let ghost all = lower(random@);
    let prefix: String = "__pgdog_repl_".to_owned();
    let ghost start = prefix@;
    let mut out: String = prefix;
    let mut i: usize = 0;
    assert(out@ =~= start + all.take(0));
    while i < chars.len()
        invariant
            i <= chars.len(),
            chars@ == random@,
            all == lower(random@),
            out@ == start + all.take(i as int),
        decreases chars.len() - i,
    {
        out.push(to_lower(chars[i]));
        assert(all.take(i + 1) =~= all.take(i as int).push(all[i as int]));
        assert(out@ =~= start + all.take(i + 1));
        i += 1;
    }
    assert(all.take(all.len() as int) =~= all);
    out
}

/// A migration from one cluster to another.
#[derive(Debug)]
pub struct Orchestrator {
    source: Arc<Cluster>,
    destination: Arc<Cluster>,
    publication: String,
    publisher: Publisher,
    replication_slot: String,
    /// The only source shard that is read, where there is one.
    source_shard: Option<usize>,
    /// The destination belongs to the caller: it is not looked up again.
    fixed_destination: bool,
    /// There is no publication: nothing is copied or replicated.
    schema_only: bool,
}

/// The state of an [`Orchestrator`].
#[verifier::ext_equal]
pub struct OrchestratorView {
    pub source: Arc<Cluster>,
    pub destination: Arc<Cluster>,
    pub publication: Seq<char>,
    pub publisher: PublisherView,
    pub replication_slot: Seq<char>,
    pub source_shard: Option<usize>,
    pub fixed_destination: bool,
    pub schema_only: bool,
}

impl View for Orchestrator {
    type V = OrchestratorView;

    closed spec fn view(&self) -> OrchestratorView {
        OrchestratorView {
            source: self.source,
            destination: self.destination,
            publication: self.publication@,
            publisher: self.publisher@,
            replication_slot: self.replication_slot@,
            source_shard: self.source_shard,
            fixed_destination: self.fixed_destination,
            schema_only: self.schema_only,
        }
    }
}

/// A publisher that knows nothing yet.
pub open spec fn fresh_publisher(publication: Seq<char>, slot: Seq<char>) -> PublisherView {
    PublisherView {
        publication,
        tables: Map::empty(),
        slots: Map::empty(),
        replication_lag: Map::empty(),
        last_transaction: None,
        slot_name: slot,
        hybrid_tables: Seq::empty(),
        key_move: None,
    }
}

/// A migration that has not started.
pub open spec fn fresh(
    source: Arc<Cluster>,
    destination: Arc<Cluster>,
    publication: Seq<char>,
    slot: Seq<char>,
    fixed_destination: bool,
) -> OrchestratorView {
    OrchestratorView {
        source,
        destination,
        publication,
        publisher: fresh_publisher(publication, slot),
        replication_slot: slot,
        source_shard: None,
        fixed_destination,
        schema_only: false,
    }
}

impl OrchestratorView {
    /// The migration after both ends were looked up again, with every source shard.
    pub open spec fn refreshed(self, databases: Map<Seq<char>, Arc<Cluster>>) -> OrchestratorView {
        OrchestratorView {
            source: databases[self.source.database@],
            destination: if self.fixed_destination {
                self.destination
            } else {
                databases[self.destination.database@]
            },
            ..self
        }
    }
}

impl Orchestrator {
    /// A migration between two configured clusters. Without a name for the
    /// replication slot, one with a random part is used.
    pub fn new(
        databases: &Databases,
        source: &String,
        destination: &String,
        publication: &str,
        replication_slot: Option<String>,
        random: &str,
    ) -> (out: Result<Self, Error>)
        ensures
            match out {
                Ok(o) => {
                    &&& databases@.contains_key(source@)
                    &&& databases@.contains_key(destination@)
                    &&& o@ == fresh(
                        databases@[source@],
                        databases@[destination@],
                        publication@,
                        match replication_slot {
                            Some(slot) => slot@,
                            None => slot_name(random@),
                        },
                        false,
                    )
                },
                Err(e) => if databases@.contains_key(source@) {
                    !databases@.contains_key(destination@) && no_database(e, destination@)
                } else {
                    no_database(e, source@)
                },
            },
    {
        let from: Arc<Cluster> = match databases.schema_owner(source) {
            Ok(c) => c,
            Err(e) => {
                return Err(e);
            },
        };
        let to: Arc<Cluster> = match databases.schema_owner(destination) {
            Ok(c) => c,
            Err(e) => {
                return Err(e);
            },
        };
        let slot: String = match replication_slot {
            Some(slot) => slot,
            None => random_slot_name(random),
        };
        let publisher: Publisher = Publisher::new(publication, slot.clone());
        Ok(
            Orchestrator {
                source: from,
                destination: to,
                publication: publication.to_owned(),
                publisher,
                replication_slot: slot,
                source_shard: None,
                fixed_destination: false,
                schema_only: false,
            },
        )
    }

    /// A migration from one shard of a configured cluster into a cluster of the
    /// caller, such as a shard that is being added.
    pub fn for_provisioning(
        databases: &Databases,
        source: &String,
        destination: Arc<Cluster>,
        publication: &str,
        source_shard: usize,
        random: &str,
    ) -> (out: Result<Self, Error>)
        ensures
            match out {
                Ok(o) => {
                    &&& databases@.contains_key(source@)
                    &&& source_shard < databases@[source@].shards@.len()
                    &&& shows_shard(*o@.source, *databases@[source@], source_shard as int)
                    &&& o@ == (OrchestratorView {
                        source_shard: Some(source_shard),
                        ..fresh(
                            o@.source,
                            destination,
                            publication@,
                            slot_name(random@),
                            true,
                        )
                    })
                },
                Err(Error::Pool(PoolError::NoShard(n))) => databases@.contains_key(source@) && n
                    == source_shard && source_shard >= databases@[source@].shards@.len(),
                Err(e) => !databases@.contains_key(source@) && no_database(e, source@),
            },
    {
        let from: Arc<Cluster> = match databases.schema_owner(source) {
            Ok(c) => c,
            Err(e) => {
                return Err(e);
            },
        };
        let slot: String = random_slot_name(random);
        let publisher: Publisher = Publisher::new(publication, slot.clone());
        let orchestrator: Orchestrator = Orchestrator {
            source: from,
            destination,
            publication: publication.to_owned(),
            publisher,
            replication_slot: slot,
            source_shard: None,
            fixed_destination: true,
            schema_only: false,
        };
        orchestrator.with_source_shard(source_shard)
    }

    /// Moves the schema without a publication. For databases with no tables on
    /// every shard there is nothing to copy.
    pub fn schema_only(self) -> (out: Self)
        ensures
            out@ == (OrchestratorView { schema_only: true, ..self@ }),
    {
        let mut out: Orchestrator = self;
        out.schema_only = true;
        out
    }

    /// Reads one source shard only. It must exist.
    pub fn with_source_shard(self, shard: usize) -> (out: Result<Self, Error>)
        ensures
            match out {
                Ok(o) => {
                    &&& shard < self@.source.shards@.len()
                    &&& shows_shard(*o@.source, *self@.source, shard as int)
                    &&& o@ == (OrchestratorView {
                        source: o@.source,
                        source_shard: Some(shard),
                        publisher: fresh_publisher(self@.publication, self@.replication_slot),
                        ..self@
                    })
                },
                Err(Error::Pool(PoolError::NoShard(n))) => n == shard && shard
                    >= self@.source.shards@.len(),
                Err(_) => false,
            },
    {
        let view: Cluster = match self.source.shard_view(shard) {
            Ok(view) => view,
            Err(e) => {
                return Err(e);
            },
        };
        let mut out: Orchestrator = self;
        out.source_shard = Some(shard);
        out.source = Arc::new(view);
        out.refresh_publisher();
        Ok(out)
    }

    /// Looks both ends up again, after the configuration was loaded anew. The
    /// caller's own destination stays, and so does the only source shard that is
    /// read.
    pub fn refresh(&mut self, databases: &Databases) -> (out: Result<(), Error>)
        ensures
            ({
                let s = old(self)@;
                let from = s.source.database@;
                let to = s.destination.database@;
                match out {
                    Ok(_) => {
                        &&& databases@.contains_key(from)
                        &&& s.fixed_destination || databases@.contains_key(to)
                        &&& match s.source_shard {
                            None => final(self)@ == s.refreshed(databases@),
                            Some(shard) => {
                                &&& shard < databases@[from].shards@.len()
                                &&& shows_shard(
                                    *final(self)@.source,
                                    *databases@[from],
                                    shard as int,
                                )
                                &&& final(self)@ == (OrchestratorView {
                                    source: final(self)@.source,
                                    ..s.refreshed(databases@)
                                })
                            },
                        }
                    },
                    Err(Error::Pool(PoolError::NoShard(n))) => {
                        &&& databases@.contains_key(from)
                        &&& s.fixed_destination || databases@.contains_key(to)
                        &&& s.source_shard == Some(n)
                        &&& n >= databases@[from].shards@.len()
                        &&& final(self)@ == s.refreshed(databases@)
                    },
                    Err(e) => if databases@.contains_key(from) {
                        &&& !s.fixed_destination && !databases@.contains_key(to)
                        &&& no_database(e, to)
                        &&& final(self)@ == (OrchestratorView { source: databases@[from], ..s })
                    } else {
                        no_database(e, from) && final(self)@ == s
                    },
                }
            }),
    {
        match databases.schema_owner(&self.source.database) {
            Ok(c) => {
                self.source = c;
            },
            Err(e) => {
                return Err(e);
            },
        }
        if !self.fixed_destination {
            match databases.schema_owner(&self.destination.database) {
                Ok(c) => {
                    self.destination = c;
                },
                Err(e) => {
                    return Err(e);
                },
            }
        }
        match self.source_shard {
            Some(shard) => match self.source.shard_view(shard) {
                Ok(view) => {
                    self.source = Arc::new(view);
                },
                Err(e) => {
                    return Err(e);
                },
            },
            None => {},
        }
        Ok(())
    }

    /// Starts over with a publisher that knows nothing. For a new phase of
    /// replication, such as after a cutover.
    pub fn refresh_publisher(&mut self)
        ensures
            final(self)@ == (OrchestratorView {
                publisher: fresh_publisher(old(self)@.publication, old(self)@.replication_slot),
                ..old(self)@
            }),
    {
        self.publisher = Publisher::new(self.publication.as_str(), self.replication_slot.clone());
    }

    /// The name of the replication slots.
    pub fn replication_slot(&self) -> (out: &String)
        ensures
            out@ == self@.replication_slot,
    {
        &self.replication_slot
    }

    /// The publication that both ends replicate through.
    pub fn publication(&self) -> (out: &String)
        ensures
            out@ == self@.publication,
    {
        &self.publication
    }

    /// The source.
    pub fn source(&self) -> (out: &Arc<Cluster>)
        ensures
            *out == self@.source,
    {
        &self.source
    }

    /// The destination.
    pub fn destination(&self) -> (out: &Arc<Cluster>)
        ensures
            *out == self@.destination,
    {
        &self.destination
    }

    /// Whether the schema is moved without a publication.
    pub fn is_schema_only(&self) -> (b: bool)
        ensures
            b == self@.schema_only,
    {
        self.schema_only
    }

    /// The publisher.
    pub fn publisher(&self) -> (out: &Publisher)
        ensures
            out@ == self@.publisher,
    {
        &self.publisher
    }

    /// The publisher, to be changed.
    pub fn publisher_mut(&mut self) -> (out: &mut Publisher)
        ensures
            out@ == old(self)@.publisher,
            final(self)@ == (OrchestratorView { publisher: final(out)@, ..old(self)@ }),
    {
        &mut self.publisher
    }

    /// The largest distance of any source shard, once every one has told.
    pub fn replication_lag(&self) -> (out: Option<u64>)
        ensures
            ({
                let lag = self@.publisher.replication_lag;
                match out {
                    Some(l) => lag.dom().len() == self@.source.shards@.len() && exists|m: i64| #[trigger]
                        largest(lag.values(), m) && l == m as u64,
                    None => lag.dom().len() != self@.source.shards@.len() || lag.values() == Set::<
                        i64,
                    >::empty(),
                }
            }),
    {
        broadcast use vstd::std_specs::hash::group_hash_axioms;

        let shards: usize = self.source.shards.len();
        let lag: &HashMap<usize, i64> = self.publisher.replication_lag();
        if lag.len() != shards {
            return None;
        }
        match largest_lag(lag) {
            Some(m) => Some(m as u64),
            None => None,
        }
    }

    /// The names of both ends.
    pub fn databases(&self) -> (out: (String, String))
        ensures
            out.0@ == self@.source.database@,
            out.1@ == self@.destination.database@,
    {
        (self.source.database.clone(), self.destination.database.clone())
    }

    /// Both ends in words.
    pub fn to_text(&self) -> (out: String)
        ensures
            out@ == self@.source.database@ + " -> "@ + self@.destination.database@,
    {
        around(self.source.database.as_str(), " -> ", self.destination.database.as_str())
    }
}

} // verus!
