//! That a subscriber, handed bytes and answers, does what is said of messages and
//! answers, and what it does apart from them.

use vstd::prelude::*;

use super::change_laws::{deleted, inserted, updated};
use super::codec::{law_log_is_read_back, xlog_bytes, CopyData, XLogDataView};
use super::error::Error;
use super::messages::{IdentityView, PayloadView, RelationView, StatusUpdate, XLogPayload};
use super::stream::{
    check_reply, lists_omni_full, missing_indexes, publication_views, tables_at,
    validate_full_identity_omni_has_unique_index, Action, Event, Reply, State, StreamSubscriber,
};
use super::table::{KeyView, PublicationTable};
use super::tuple::Oid;
use super::wire::{law_messages_are_read_back, message_bytes, writable_message, Message, OldRow};
use crate::cluster::Role;

verus! {

/// A message of the log is handled as what was written into it, and counts with its
/// own length.
pub proof fn law_the_log_is_handled_as_written(
    s: &mut StreamSubscriber,
    data: CopyData,
    counter: &mut usize,
    action: Action,
    x: XLogDataView,
    m: Message,
)
    requires
        call_ensures(StreamSubscriber::handle, (s, &data, counter), action),
        data.data@ == xlog_bytes(x),
        x.bytes == message_bytes(m),
        writable_message(m),
        x.bytes.len() <= usize::MAX,
    ensures
        ({
            let step = (final(s)@, action@);
            let t = State { counter: *old(counter), ..old(s)@ };
            let size = x.bytes.len() as usize;
            &&& m matches Message::Insert { oid, row } ==> step == t.on_data(
                inserted(oid, row),
                size,
            )
            &&& m matches Message::Delete { oid, key, old } ==> step == t.on_data(
                deleted(oid, key, old),
                size,
            )
            &&& m matches Message::Update { oid, identity, new } ==> {
                &&& identity is Nothing ==> step == t.on_data(
                    updated(oid, IdentityView::Nothing, new),
                    size,
                )
                &&& identity matches OldRow::Key(row) ==> step == t.on_data(
                    updated(oid, IdentityView::Key(row), new),
                    size,
                )
                &&& identity matches OldRow::Old(row) ==> step == t.on_data(
                    updated(oid, IdentityView::Old(row), new),
                    size,
                )
            }
            &&& m matches Message::Begin(b) ==> step == t.on_data(
                Some(PayloadView::Begin(b)),
                size,
            )
            &&& m matches Message::Commit(c) ==> step == t.on_data(
                Some(PayloadView::Commit(c)),
                size,
            )
            &&& m matches Message::Relation(r) ==> step == t.on_data(
                Some(
                    PayloadView::Relation(
                        RelationView { oid: r.oid, namespace: r.namespace, name: r.name },
                    ),
                ),
                size,
            )
        }),
{
    law_log_is_read_back(x);
    law_messages_are_read_back(m);
}

/// An answer is taken as it is, and so is a message that was read already.
pub proof fn law_answers_are_taken_as_they_are(
    s: &mut StreamSubscriber,
    event: Event,
    counter: &mut usize,
    action: Action,
)
    requires
        call_ensures(StreamSubscriber::resume, (s, event, counter), action),
    ensures
        (final(s)@, action@) == (State { counter: *old(counter), ..old(s)@ }).on_event(event@),
        *final(counter) == final(s)@.counter,
{
}

/// A message that was read already is handled as it is.
pub proof fn law_messages_are_taken_as_they_are(
    s: &mut StreamSubscriber,
    payload: Option<XLogPayload>,
    size: usize,
    counter: &mut usize,
    action: Action,
)
    requires
        call_ensures(StreamSubscriber::handle_payload, (s, payload, size, counter), action),
    ensures
        payload is None ==> (final(s)@, action@) == (State {
            counter: *old(counter),
            ..old(s)@
        }).on_data(None, size),
        payload matches Some(p) ==> (final(s)@, action@) == (State {
            counter: *old(counter),
            ..old(s)@
        }).on_data(Some(p@), size),
        *final(counter) == final(s)@.counter,
{
}

/// Connected anew, a subscriber knows no table of the stream and no statement, since
/// the destination does not either; an open transaction is forgotten. What has been
/// applied, and where the stream stands, it still knows.
pub proof fn law_reconnecting_starts_over(s: &mut StreamSubscriber, out: ())
    requires
        call_ensures(StreamSubscriber::reconnect, (s,), out),
    ensures
        final(s)@.connections == 0,
        final(s)@.relations.dom() == Set::<u32>::empty(),
        final(s)@.statements.dom() == Set::<u32>::empty(),
        final(s)@.keys.dom() == Set::<KeyView>::empty(),
        final(s)@.changed_tables == Set::<u32>::empty(),
        !final(s)@.in_transaction,
        final(s)@.task is Idle,
        final(s)@.table_lsns == old(s)@.table_lsns,
        final(s)@.lsn == old(s)@.lsn,
        final(s)@.committed_lsn == old(s)@.committed_lsn,
        final(s)@.tables == old(s)@.tables,
        final(s)@.partition == old(s)@.partition,
{
}

/// A change of a table is known where the table has come as far as the stream.
pub proof fn law_known_positions(s: StreamSubscriber, oid: Oid, b: bool)
    requires
        call_ensures(StreamSubscriber::lsn_applied, (&s, &oid), b),
    ensures
        b <==> s@.table_lsns.contains_key(oid.0) && s@.table_lsns[oid.0] >= s@.lsn,
{
}

/// The source is told one position, the one that was committed.
pub proof fn law_one_position_is_reported(s: StreamSubscriber, now: i64, out: StatusUpdate)
    requires
        call_ensures(StreamSubscriber::status_update, (&s, now), out),
    ensures
        out.last_applied == s@.committed_lsn,
        out.last_flushed == s@.committed_lsn,
        out.last_written == s@.committed_lsn,
        out.system_clock == now,
        out.reply == 0,
{
}

/// A subscriber connects to the primary of each shard, and needs one of each.
pub proof fn law_primaries_are_connected_to(
    s: StreamSubscriber,
    out: Result<Vec<usize>, Error>,
    i: int,
)
    requires
        call_ensures(StreamSubscriber::connect, (&s,), out),
        0 <= i < s@.cluster.shards@.len(),
    ensures
        out matches Ok(pools) ==> {
            &&& pools@.len() == s@.cluster.shards@.len()
            &&& pools@[i] < s@.cluster.shards@[i].pools@.len()
            &&& s@.cluster.shards@[i].pools@[pools@[i] as int].role == Role::Primary
        },
        out matches Err(e) ==> e is NoPrimary,
{
    let args = (&s,);
    assert(args.0@ == s@);
    if let Ok(pools) = out {
        let shards = s@.cluster.shards@;
        assert(args.0@.cluster.shards@ == shards);
        assert(crate::cluster::first_primary(*shards[i], pools@[i] as int));
    }
}

/// The answers to the statements that control transactions are three: prepared, done
/// and ready. Anything else is out of step, and an error is an error.
pub proof fn law_control_statements_are_answered(reply: Reply, out: Result<(), Error>)
    requires
        call_ensures(check_reply, (reply,), out),
    ensures
        out is Ok <==> reply == Reply::Message('1') || reply == Reply::Message('C') || reply
            == Reply::Message('Z'),
        reply matches Reply::Error(e) ==> out == Err::<(), Error>(Error::PgError(e)),
        reply matches Reply::Message(c) ==> (out matches Err(e) ==> e == Error::OutOfSync(c)),
{
}

/// A shard that names a table without a unique index is in the way, and nothing else
/// is.
pub proof fn law_missing_indexes_are_in_the_way(
    per_shard: Vec<Vec<String>>,
    out: Result<(), Error>,
)
    requires
        call_ensures(validate_full_identity_omni_has_unique_index, (&per_shard,), out),
    ensures
        out is Ok <==> forall|i: int|
            0 <= i < per_shard@.len() ==> (#[trigger] per_shard@[i])@.len() == 0,
        out matches Err(e) ==> e is TableValidation,
{
    lemma_missing_indexes(per_shard@);
}

proof fn lemma_missing_indexes(per_shard: Seq<Vec<String>>)
    ensures
        missing_indexes(per_shard).len() == 0 <==> forall|i: int|
            0 <= i < per_shard.len() ==> (#[trigger] per_shard[i])@.len() == 0,
    decreases per_shard.len(),
{
    let f = |names: Vec<String>| crate::text::texts(names@);
    if per_shard.len() == 0 {
        assert(per_shard.flat_map(f) =~= Seq::<Seq<char>>::empty());
    } else {
        let rest = per_shard.drop_last();
        let last = per_shard.len() - 1;
        lemma_missing_indexes(rest);
        rest.lemma_flat_map_push(f, per_shard.last());
        assert(per_shard =~= rest.push(per_shard.last()));
        assert(f(per_shard[last]).len() == per_shard[last]@.len());
        assert(missing_indexes(per_shard).len() == missing_indexes(rest).len()
            + per_shard[last]@.len());
        assert(forall|i: int| 0 <= i < last ==> #[trigger] rest[i] == per_shard[i]);
        if missing_indexes(per_shard).len() == 0 {
            assert forall|i: int| 0 <= i < per_shard.len() implies (
            #[trigger] per_shard[i])@.len() == 0 by {
                if i < last {
                    assert(rest[i]@.len() == 0);
                }
            }
        }
        if forall|i: int| 0 <= i < per_shard.len() ==> (#[trigger] per_shard[i])@.len() == 0 {
            assert forall|i: int| 0 <= i < rest.len() implies (#[trigger] rest[i])@.len() == 0 by {
                assert(rest[i] == per_shard[i]);
            }
        }
    }
}

/// Whether a table has replica identity FULL, and no rule shards it.
pub open spec fn is_full_everywhere(s: State, key: KeyView) -> bool {
    &&& s.tables.contains_key(key)
    &&& s.tables[key].identity == "f"@
    &&& !s.tables[key].sharded_by(s.cluster.sharded_tables)
}

/// The tables that need a unique index at the destination are those with replica
/// identity FULL that no rule shards: all of them, and no others.
pub proof fn law_full_tables_on_every_shard_need_an_index(
    s: StreamSubscriber,
    out: Vec<PublicationTable>,
    key: KeyView,
    i: int,
)
    requires
        call_ensures(StreamSubscriber::omni_full_tables, (&s,), out),
    ensures
        is_full_everywhere(s@, key) ==> exists|k: int|
            0 <= k < out@.len() && (#[trigger] out@[k])@ == s@.tables[key].table,
        0 <= i < out@.len() ==> exists|k: KeyView| #[trigger]
            is_full_everywhere(s@, k) && s@.tables[k].table == out@[i]@,
{
    let keys = choose|keys: Seq<KeyView>| #[trigger]
        lists_omni_full(s@, keys) && publication_views(out@) == tables_at(s@, keys);
    let views = publication_views(out@);
    assert(views.len() == out@.len());
    assert(views.len() == keys.len());
    if is_full_everywhere(s@, key) {
        assert(keys.contains(key));
        let k = keys.index_of(key);
        assert(views[k] == s@.tables[keys[k]].table);
        assert(views[k] == out@[k]@);
    }
    if 0 <= i < out@.len() {
        assert(views[i] == out@[i]@);
        assert(views[i] == s@.tables[keys[i]].table);
        assert(keys.contains(keys[i]));
        assert(is_full_everywhere(s@, keys[i]));
    }
}

} // verus!
