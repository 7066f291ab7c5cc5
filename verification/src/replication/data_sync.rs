//! The order in which a publication is copied and streamed.

use vstd::prelude::*;

use super::dependencies::{acyclic, dependency_order, parents_first};
use super::error::Error;
use super::publisher::{
    after_sync, copy_pools, copy_sources, faultless, is_column_missing, is_validation_of, loaded,
    table_views, Publisher, PublisherView,
};
use super::table::{Key, Table, TableView};
use crate::cluster::Shard;
use crate::sharded_tables::ShardedTables;

verus! {

/// Where a copy is.
#[derive(Debug, Clone, Copy, PartialEq, Eq, Structural)]
pub enum SyncStage {
    /// The tables are being loaded from every source shard.
    Load,
    /// The replication slot of a shard is being created.
    Slots { shard: usize },
    /// The shards are being worked on, this many of which are left.
    Shards { left: usize },
    /// It is over.
    Finished,
}

/// The copy of a publication, or the start of its streams.
#[derive(Debug, Clone, Copy, PartialEq, Eq, Structural)]
pub struct DataSync {
    pub stage: SyncStage,
    /// The number of source shards.
    pub shards: usize,
    /// Whether tables are copied; otherwise they are streamed.
    pub copies: bool,
}

/// What happened to a copy.
#[derive(Debug)]
#[allow(inconsistent_fields)]
pub enum SyncEvent {
    /// The tables of each source shard have been loaded.
    Loaded { tables: Vec<Vec<Table>>, cancelled: bool },
    /// The tables of a source shard could not be loaded; those of the shards before it
    /// have been.
    LoadFailed { tables: Vec<Vec<Table>>, error: Error },
    /// A slot has been created, at this position.
    SlotCreated { lsn: i64, cancelled: bool },
    /// The tables of a shard have been copied.
    Copied { shard: usize, tables: Vec<Table> },
    /// Something has failed.
    Failed(Error),
}

/// What is to be done about a copy.
#[derive(Debug)]
pub enum SyncAction {
    /// Create the replication slot of a shard.
    CreateSlot { shard: usize },
    /// Copy the tables of every shard, or start its stream.
    StartShards,
    /// Wait for the other shards.
    Wait,
    /// Nothing: it is done.
    Done,
    /// Nothing: it has failed.
    Fail(Error),
}

/// What comes once the tables are known, or a slot has been created: the next slot,
/// or the work on the shards. Between slots it can be called off.
pub open spec fn slots_from(s: DataSync, shard: int, cancelled: bool) -> (DataSync, SyncAction) {
    if shard < s.shards {
        if cancelled {
            (
                DataSync { stage: SyncStage::Finished, ..s },
                SyncAction::Fail(Error::DataSyncAborted),
            )
        } else {
            (
                DataSync { stage: SyncStage::Slots { shard: shard as usize }, ..s },
                SyncAction::CreateSlot { shard: shard as usize },
            )
        }
    } else {
        shards_left(s, s.shards)
    }
}

/// What comes while this many shards are left.
pub open spec fn shards_left(s: DataSync, left: usize) -> (DataSync, SyncAction) {
    if left == 0 {
        (DataSync { stage: SyncStage::Finished, ..s }, SyncAction::Done)
    } else {
        (DataSync { stage: SyncStage::Shards { left }, ..s }, SyncAction::StartShards)
    }
}

impl DataSync {
    /// Whether an event can come now.
    pub open spec fn awaits(self, event: SyncEvent) -> bool {
        match (self.stage, event) {
            (SyncStage::Finished, _) => false,
            (_, SyncEvent::Failed(_)) => true,
            (SyncStage::Load, SyncEvent::Loaded { tables, .. }) => tables@.len() == self.shards,
            (SyncStage::Load, SyncEvent::LoadFailed { tables, .. }) => tables@.len() < self.shards,
            (SyncStage::Slots { shard }, SyncEvent::SlotCreated { .. }) => shard < self.shards,
            (SyncStage::Shards { left }, SyncEvent::Copied { .. }) => left > 0,
            _ => false,
        }
    }

    /// A copy, or a stream, of a number of source shards. The tables are loaded
    /// first.
    pub fn new(shards: usize, copies: bool) -> (out: DataSync)
        ensures
            out == (DataSync { stage: SyncStage::Load, shards, copies }),
    {
        DataSync { stage: SyncStage::Load, shards, copies }
    }

    fn slots(&mut self, shard: usize, cancelled: bool) -> (action: SyncAction)
        ensures
            (*final(self), action) == slots_from(*old(self), shard as int, cancelled),
    {
        if shard < self.shards {
            if cancelled {
                self.stage = SyncStage::Finished;
                SyncAction::Fail(Error::DataSyncAborted)
            } else {
                self.stage = SyncStage::Slots { shard };
                SyncAction::CreateSlot { shard }
            }
        } else if self.shards == 0 {
            self.stage = SyncStage::Finished;
            SyncAction::Done
        } else {
            self.stage = SyncStage::Shards { left: self.shards };
            SyncAction::StartShards
        }
    }

    /// Takes what happened and tells what is to be done. Before a copy, every table
    /// is checked; only then are slots created, so that none is left behind. Before
    /// a stream, slots are created where there are none.
    pub fn next(
        &mut self,
        publisher: &mut Publisher,
        rules: &ShardedTables,
        event: SyncEvent,
    ) -> (action: SyncAction)
        requires
            old(self).awaits(event),
        ensures
            match event {
                SyncEvent::Failed(e) => {
                    &&& action == SyncAction::Fail(e)
                    &&& *final(self) == (DataSync { stage: SyncStage::Finished, ..*old(self) })
                    &&& final(publisher)@ == old(publisher)@
                },
                SyncEvent::Loaded { tables, cancelled } => {
                    let (after, missing) = after_sync(
                        old(publisher)@,
                        old(self).copies,
                        *rules,
                        tables@,
                    );
                    &&& final(publisher)@ == after
                    &&& if missing is Some {
                        &&& action matches SyncAction::Fail(e) && is_column_missing(e, missing->0)
                        &&& *final(self) == (DataSync { stage: SyncStage::Finished, ..*old(self) })
                    } else if old(self).copies && !faultless(after.tables) {
                        &&& action matches SyncAction::Fail(e) && is_validation_of(e, after.tables)
                        &&& *final(self) == (DataSync { stage: SyncStage::Finished, ..*old(self) })
                    } else if old(self).copies || after.slots.dom().len() == 0 {
                        (*final(self), action) == slots_from(*old(self), 0, cancelled)
                    } else {
                        (*final(self), action) == shards_left(*old(self), old(self).shards)
                    }
                },
                SyncEvent::LoadFailed { tables, error } => {
                    let (progress, missing) = loaded(
                        old(publisher)@.tables,
                        old(publisher)@.hybrid_tables,
                        old(self).copies,
                        *rules,
                        tables@,
                        tables@.len(),
                    );
                    &&& final(publisher)@ == (PublisherView {
                        tables: progress.tables,
                        ..old(publisher)@
                    })
                    &&& *final(self) == (DataSync { stage: SyncStage::Finished, ..*old(self) })
                    &&& action matches SyncAction::Fail(e) && match missing {
                        Some(m) => is_column_missing(e, m),
                        None => e == error,
                    }
                },
                SyncEvent::SlotCreated { lsn, cancelled } => {
                    let shard = old(self).stage->shard;
                    &&& final(publisher)@ == (PublisherView {
                        slots: old(publisher)@.slots.insert(shard, lsn),
                        ..old(publisher)@
                    })
                    &&& (*final(self), action) == slots_from(*old(self), shard + 1, cancelled)
                },
                SyncEvent::Copied { shard, tables } => {
                    let left = (old(self).stage->left - 1) as usize;
                    &&& final(publisher)@ == (PublisherView {
                        tables: old(publisher)@.tables.insert(shard, table_views(tables@)),
                        ..old(publisher)@
                    })
                    &&& if left == 0 {
                        &&& *final(self) == (DataSync { stage: SyncStage::Finished, ..*old(self) })
                        &&& action is Done
                    } else {
                        &&& *final(self) == (DataSync {
                            stage: SyncStage::Shards { left },
                            ..*old(self)
                        })
                        &&& action is Wait
                    }
                },
            },
    {
        match event {
            SyncEvent::Failed(e) => {
                self.stage = SyncStage::Finished;
                SyncAction::Fail(e)
            },
            SyncEvent::Loaded { tables, cancelled } => {
                match publisher.sync_tables(self.copies, tables, rules) {
                    Ok(_) => {},
                    Err(e) => {
                        self.stage = SyncStage::Finished;
                        return SyncAction::Fail(e);
                    },
                }
                if self.copies {
                    match publisher.validate() {
                        Ok(_) => {},
                        Err(e) => {
                            self.stage = SyncStage::Finished;
                            return SyncAction::Fail(e);
                        },
                    }
                    return self.slots(0, cancelled);
                }
                if publisher.needs_slots() {
                    return self.slots(0, cancelled);
                }
                if self.shards == 0 {
                    self.stage = SyncStage::Finished;
                    SyncAction::Done
                } else {
                    self.stage = SyncStage::Shards { left: self.shards };
                    SyncAction::StartShards
                }
            },
            SyncEvent::LoadFailed { tables, error } => {
                self.stage = SyncStage::Finished;
                SyncAction::Fail(publisher.sync_failed(self.copies, tables, rules, error))
            },
            SyncEvent::SlotCreated { lsn, cancelled } => {
                let shard: usize = match self.stage {
                    SyncStage::Slots { shard } => shard,
                    _ => 0,
                };
                publisher.slot_created(shard, lsn);
                self.slots(shard + 1, cancelled)
            },
            SyncEvent::Copied { shard, tables } => {
                let left: usize = match self.stage {
                    SyncStage::Shards { left } => left - 1,
                    _ => 0,
                };
                publisher.set_tables(shard, tables);
                if left == 0 {
                    self.stage = SyncStage::Finished;
                    SyncAction::Done
                } else {
                    self.stage = SyncStage::Shards { left };
                    SyncAction::Wait
                }
            },
        }
    }
}

impl Publisher {
    /// Copies the tables of the publication from a number of source shards.
    pub fn data_sync(shards: usize) -> (out: DataSync)
        ensures
            out == (DataSync { stage: SyncStage::Load, shards, copies: true }),
    {
        DataSync::new(shards, true)
    }

    /// Streams the changes of the publication from a number of source shards.
    pub fn replicate(shards: usize) -> (out: DataSync)
        ensures
            out == (DataSync { stage: SyncStage::Load, shards, copies: false }),
    {
        DataSync::new(shards, false)
    }
}

/// Whether some tables are those of a shard in an order in which they can be copied.
/// Where keys are moved, the foreign keys of the destination are enforced, and a table
/// comes before those that refer to it, as far as that can be.
pub open spec fn in_copy_order(
    p: PublisherView,
    number: usize,
    references: Seq<(Key, Key)>,
    tables: Seq<TableView>,
) -> bool {
    if p.key_move is Some {
        &&& tables.to_multiset() == p.tables[number].to_multiset()
        &&& acyclic(p.tables[number], references) ==> parents_first(tables, references)
        &&& parents_first(p.tables[number], references) ==> tables == p.tables[number]
    } else {
        tables == p.tables[number]
    }
}

/// The tables of a shard to copy, and the databases to copy them from, of which
/// there has to be one. The references between the tables count only where keys are
/// moved.
pub fn shard_copies(
    publisher: &Publisher,
    shard: &Shard,
    number: usize,
    references: &Vec<(Key, Key)>,
) -> (out: Result<(Vec<Table>, Vec<usize>), Error>)
    ensures
        match out {
            Ok(work) => {
                &&& publisher@.tables.contains_key(number)
                &&& in_copy_order(publisher@, number, references@, table_views(work.0@))
                &&& work.1@ == copy_sources(*shard, shard.pools@.len())
                &&& work.1@.len() > 0
            },
            Err(Error::NoReplicationTables(n)) => n == number
                && !publisher@.tables.contains_key(number),
            Err(Error::NoReplicas) => publisher@.tables.contains_key(number) && copy_sources(
                *shard,
                shard.pools@.len(),
            ).len() == 0,
            Err(_) => false,
        },
{
    let tables: &Vec<Table> = match publisher.tables(number) {
        Ok(tables) => tables,
        Err(e) => {
            return Err(e);
        },
    };
    let pools: Vec<usize> = copy_pools(shard);
    if pools.len() == 0 {
        return Err(Error::NoReplicas);
    }
    let ghost all = table_views(tables@);
    let mut copies: Vec<Table> = Vec::new();
    let mut i: usize = 0;
    while i < tables.len()
        invariant
            i <= tables.len(),
            all == table_views(tables@),
            table_views(copies@) == all.take(i as int),
        decreases tables.len() - i,
    {
        let ghost before = table_views(copies@);
        let table: Table = tables[i].clone();
        copies.push(table);
        assert(table_views(copies@) =~= before.push(all[i as int]));
        assert(all.take(i + 1) =~= all.take(i as int).push(all[i as int]));
        i += 1;
    }
    assert(all.take(all.len() as int) =~= all);
    if publisher.moves_keys() {
        copies = dependency_order(copies, references);
    }
    Ok((copies, pools))
}

/// The slots are created for the shards in turn, each once, and the shards are
/// worked on only behind the last.
pub proof fn law_slots_come_in_turn(s: DataSync, shard: usize)
    requires
        shard < s.shards,
    ensures
        ({
            let (after, action) = slots_from(s, shard + 1, false);
            if shard + 1 < s.shards {
                action == SyncAction::CreateSlot { shard: (shard + 1) as usize } && after.stage
                    == SyncStage::Slots { shard: (shard + 1) as usize }
            } else {
                action is StartShards
            }
        }),
{
}

/// Called off between two slots, a copy creates no other.
pub proof fn law_no_slot_once_called_off(s: DataSync, shard: int)
    ensures
        !(slots_from(s, shard, true).1 is CreateSlot),
{
}

} // verus!
