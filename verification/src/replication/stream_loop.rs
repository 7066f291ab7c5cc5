//! How one source shard is streamed: when to answer the source, when to try again
//! and when to stop.

use vstd::prelude::*;

use super::error::Error;
use super::messages::StatusUpdate;
use super::stream::{status_of, State, StreamSubscriber};

verus! {

/// What happened to a stream.
#[derive(Debug)]
pub enum LoopEvent {
    /// The stream is to be stopped.
    StopRequested,
    /// The source has nothing more to send.
    Drained,
    /// The source has ended the copy mode.
    CopyDone,
    /// A message has been handled, with what is to be reported of it.
    Handled(Option<StatusUpdate>),
    /// The source has been told.
    Reported,
    /// Reading from the source or writing to the destination has failed.
    Failed(Error),
    /// Reconnecting has failed.
    ReconnectFailed(Error),
}

/// What is to be done about a stream.
#[derive(Debug)]
pub enum LoopAction {
    /// Wait for what happens next.
    Continue,
    /// Tell the source to stop sending.
    StopReplication,
    /// Drop the slot and end.
    DropSlot,
    /// Report to the source; a transaction was committed.
    Report(StatusUpdate),
    /// Wait, reconnect both ends and go on.
    Reconnect,
    /// Drop the connections to the destination; the next message makes new ones.
    ResetConnections,
    /// End with an error.
    Fail(Error),
}

/// A stream's patience.
#[derive(Debug, Clone, Copy, PartialEq, Eq, Structural)]
pub struct ReplicationLoop {
    /// How often the stream has failed since a message was last handled and
    /// reported.
    pub attempt: usize,
    /// How often it may; without limit, where this is zero.
    pub max_attempts: usize,
    /// Whether the source has been told to stop.
    pub stopping: bool,
}

impl ReplicationLoop {
    /// Whether a failure is tried again.
    pub open spec fn retries(self, error: Error) -> bool {
        error.retryable() && (self.max_attempts == 0 || self.attempt < self.max_attempts)
    }

    /// The stream, tried once more.
    pub open spec fn retried(self) -> ReplicationLoop {
        ReplicationLoop { attempt: self.attempt.wrapping_add(1), ..self }
    }

    /// How often a stream is tried again while one failure follows another.
    pub open spec fn tries(self, errors: Seq<Error>) -> nat
        decreases errors.len(),
    {
        if errors.len() == 0 || !self.retries(errors[0]) {
            0
        } else {
            1 + self.retried().tries(errors.skip(1))
        }
    }

    /// A stream that has not failed yet.
    pub fn new(max_attempts: usize) -> (out: ReplicationLoop)
        ensures
            out == (ReplicationLoop { attempt: 0, max_attempts, stopping: false }),
    {
        ReplicationLoop { attempt: 0, max_attempts, stopping: false }
    }

    /// Whether a request to stop is still heard: it is, once.
    pub fn listens_for_stop(&self) -> (b: bool)
        ensures
            b == !self.stopping,
    {
        !self.stopping
    }

    /// Takes what happened and tells what is to be done.
    pub fn next(&mut self, event: LoopEvent) -> (action: LoopAction)
        ensures
            match event {
                LoopEvent::StopRequested => {
                    &&& *final(self) == (ReplicationLoop { stopping: true, ..*old(self) })
                    &&& if old(self).stopping {
                        action is Continue
                    } else {
                        action is StopReplication
                    }
                },
                LoopEvent::Drained => *final(self) == *old(self) && action is DropSlot,
                LoopEvent::CopyDone => *final(self) == *old(self) && action is Continue,
                LoopEvent::Handled(Some(s)) => *final(self) == *old(self) && action
                    == LoopAction::Report(s),
                LoopEvent::Handled(None) => {
                    &&& *final(self) == (ReplicationLoop { attempt: 0, ..*old(self) })
                    &&& action is Continue
                },
                LoopEvent::Reported => {
                    &&& *final(self) == (ReplicationLoop { attempt: 0, ..*old(self) })
                    &&& action is Continue
                },
                LoopEvent::Failed(e) => if old(self).retries(e) {
                    *final(self) == old(self).retried() && action is Reconnect
                } else {
                    *final(self) == *old(self) && action == LoopAction::Fail(e)
                },
                LoopEvent::ReconnectFailed(e) => {
                    &&& *final(self) == *old(self)
                    &&& if e.retryable() {
                        action is ResetConnections
                    } else {
                        action == LoopAction::Fail(e)
                    }
                },
            },
    {
        match event {
            LoopEvent::StopRequested => {
                if self.stopping {
                    return LoopAction::Continue;
                }
                self.stopping = true;
                LoopAction::StopReplication
            },
            LoopEvent::Drained => LoopAction::DropSlot,
            LoopEvent::CopyDone => LoopAction::Continue,
            LoopEvent::Handled(Some(s)) => LoopAction::Report(s),
            LoopEvent::Handled(None) => {
                self.attempt = 0;
                LoopAction::Continue
            },
            LoopEvent::Reported => {
                self.attempt = 0;
                LoopAction::Continue
            },
            LoopEvent::Failed(e) => {
                if e.is_retryable() && (self.max_attempts == 0 || self.attempt < self.max_attempts) {
                    self.attempt = self.attempt.wrapping_add(1);
                    LoopAction::Reconnect
                } else {
                    LoopAction::Fail(e)
                }
            },
            LoopEvent::ReconnectFailed(e) => {
                if e.is_retryable() {
                    LoopAction::ResetConnections
                } else {
                    LoopAction::Fail(e)
                }
            },
        }
    }
}

/// Whether the source is answered: it asked for it, or it went on without changes
/// of ours and no transaction is open.
pub open spec fn answers_keepalive(s: State, wal_end: i64, reply_requested: bool) -> bool {
    reply_requested || (!s.in_transaction && wal_end != s.lsn)
}

/// The state once the source has told how far it has got.
pub open spec fn after_keepalive(s: State, wal_end: i64) -> State {
    if s.in_transaction {
        s
    } else {
        State { lsn: wal_end, committed_lsn: wal_end, lsn_changed: wal_end != s.lsn, ..s }
    }
}

/// The source is alive and has got this far. With no transaction open, what it
/// wrote in between was none of ours, and the position moves along. Gives what is
/// to be reported, if anything.
pub fn keepalive(
    stream: &mut StreamSubscriber,
    wal_end: i64,
    reply_requested: bool,
    now: i64,
) -> (status: Option<StatusUpdate>)
    ensures
        ({
            let s = old(stream)@;
            let after = after_keepalive(s, wal_end);
            &&& final(stream)@ == after
            &&& status == if answers_keepalive(s, wal_end, reply_requested) {
                Some(status_of(after.committed_lsn, now))
            } else {
                None
            }
        }),
{
    let mut advanced: bool = false;
    if !stream.in_transaction() {
        advanced = stream.set_current_lsn(wal_end);
    }
    if advanced || reply_requested {
        Some(stream.status_update(now))
    } else {
        None
    }
}

/// A stream that fails again and again without getting a message handled is given
/// up after the allowed number of tries, where there is a limit.
pub proof fn law_retries_are_bounded(l: ReplicationLoop, errors: Seq<Error>)
    requires
        0 < l.max_attempts,
        l.attempt <= l.max_attempts,
    ensures
        l.tries(errors) <= l.max_attempts - l.attempt,
    decreases errors.len(),
{
    if errors.len() > 0 && l.retries(errors[0]) {
        law_retries_are_bounded(l.retried(), errors.skip(1));
    }
}

/// Without a limit, a stream is tried again after each failure that may pass.
pub proof fn law_passing_failures_are_retried(l: ReplicationLoop, errors: Seq<Error>)
    requires
        l.max_attempts == 0,
        forall|i: int| 0 <= i < errors.len() ==> (#[trigger] errors[i]).retryable(),
    ensures
        l.tries(errors) == errors.len(),
    decreases errors.len(),
{
    if errors.len() > 0 {
        assert forall|i: int| 0 <= i < errors.skip(1).len() implies (#[trigger] errors.skip(
            1,
        )[i]).retryable() by {
            assert(errors.skip(1)[i] == errors[i + 1]);
        }
        law_passing_failures_are_retried(l.retried(), errors.skip(1));
    }
}

/// While a transaction is open, a sign of life from the source does not move the
/// position that is reported to it.
pub proof fn law_keepalive_does_not_skip_a_transaction(s: State, wal_end: i64)
    requires
        s.in_transaction,
    ensures
        after_keepalive(s, wal_end) == s,
        !answers_keepalive(s, wal_end, false),
{
}

} // verus!
