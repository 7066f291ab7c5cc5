//! Moves traffic from the source of a migration to its destination.
//!
//! Traffic is paused once replication is close, and moved once it has caught up.
//! Whatever goes wrong before that, traffic goes on where it was.

use vstd::prelude::*;

use super::error::Error;
use super::orchestrator::{
    cutover_decision, should_cutover, CutoverAction, CutoverConfig, CutoverReason,
    CutoverTimeoutAction,
};

verus! {

/// Where a cutover is.
#[derive(Debug, Clone, Copy, PartialEq, Eq, Structural)]
pub enum Stage {
    /// Replication is getting close.
    WaitForReplication,
    /// Traffic is paused, and the running queries are being cancelled.
    CancelQueries,
    /// Replication is catching up.
    WaitForCutover,
    /// The streams are being stopped. There is no way back from here but a failure.
    StopStreams,
    /// The rest of the schema is being moved.
    SyncSchema,
    /// Traffic is being moved.
    SwitchTraffic,
    /// Both ends are being looked up again, with their parts exchanged.
    Refresh,
    /// The way back is being set up.
    ReverseReplication,
    /// It is over.
    Finished,
}

/// A cutover.
#[derive(Debug, Clone, Copy, PartialEq, Eq, Structural)]
pub struct Cutover {
    pub stage: Stage,
    /// Whether traffic is paused.
    pub paused: bool,
    pub config: CutoverConfig,
}

/// What happened to a cutover.
#[derive(Debug)]
pub enum CutoverEvent {
    /// Time passed, or the streams ended without an error. How far replication is,
    /// and how long the current wait has taken.
    Tick { lag: Option<u64>, last_transaction: Option<u128>, elapsed: u128 },
    /// The streams broke.
    StreamsFailed(Error),
    /// It was called off.
    Cancelled,
    /// What was to be done has been done.
    Succeeded,
    /// What was to be done has failed.
    Failed(Error),
}

/// What is to be done about a cutover.
#[derive(Debug)]
pub enum CutoverStep {
    /// Wait a moment.
    Wait,
    /// Pause traffic, and cancel the running queries.
    PauseTraffic,
    /// Start the clock, and wait for replication to catch up.
    Catchup,
    /// Stop the streams, and wait for them to end.
    StopStreams,
    /// Move the rest of the schema.
    SyncSchema,
    /// Move traffic.
    SwitchTraffic,
    /// Look both ends up again, and start over with the publisher.
    Refresh,
    /// Replicate back, so that traffic can be moved back.
    ReverseReplication,
    /// Keep replicating back, resume traffic, and end.
    Complete,
    /// Resume traffic, and end with an error.
    Abort(Error),
    /// Resume traffic, stop the streams, and end without an error.
    Stop,
    /// End with an error; traffic was never paused.
    Fail(Error),
}

/// What is reported of a cutover.
#[derive(Debug)]
pub enum CutoverState {
    WaitingForReplication { lag: u64 },
    WaitForCutover { action: CutoverAction },
    Abort { error: String },
    Complete,
}

/// Whether a cutover is over after a step.
pub open spec fn ends(step: CutoverStep) -> bool {
    step is Complete || step is Abort || step is Stop || step is Fail
}

impl Cutover {
    /// Traffic is paused from the cancelled queries on until it is over.
    pub open spec fn wf(self) -> bool {
        self.paused == (self.stage != Stage::WaitForReplication && self.stage != Stage::Finished)
    }

    /// Whether an event can come now. A cutover can be called off until the streams
    /// are stopped.
    pub open spec fn awaits(self, event: CutoverEvent) -> bool {
        match event {
            CutoverEvent::Tick { .. } => self.stage == Stage::WaitForReplication || self.stage
                == Stage::WaitForCutover,
            CutoverEvent::StreamsFailed(_) => self.stage == Stage::WaitForReplication || self.stage
                == Stage::WaitForCutover,
            CutoverEvent::Cancelled => self.stage == Stage::WaitForReplication || self.stage
                == Stage::CancelQueries || self.stage == Stage::WaitForCutover,
            CutoverEvent::Succeeded => self.stage != Stage::WaitForReplication && self.stage
                != Stage::WaitForCutover && self.stage != Stage::Finished,
            CutoverEvent::Failed(_) => self.stage != Stage::WaitForReplication && self.stage
                != Stage::WaitForCutover && self.stage != Stage::Finished,
        }
    }

    /// At another stage.
    pub open spec fn at(self, stage: Stage) -> Cutover {
        Cutover { stage, ..self }
    }

    /// It is over, and traffic goes on.
    pub open spec fn over(self) -> Cutover {
        Cutover { stage: Stage::Finished, paused: false, ..self }
    }

    /// A cutover that has not started.
    pub fn new(config: CutoverConfig) -> (out: Cutover)
        ensures
            out == (Cutover { stage: Stage::WaitForReplication, paused: false, config }),
            out.wf(),
    {
        Cutover { stage: Stage::WaitForReplication, paused: false, config }
    }

    fn abort(&mut self, e: Error) -> (out: (CutoverStep, Option<CutoverState>))
        ensures
            *final(self) == old(self).over(),
            out.0 == CutoverStep::Abort(e),
            out.1 matches Some(CutoverState::Abort { error }) && error@ == e.text(),
    {
        self.stage = Stage::Finished;
        self.paused = false;
        let error: String = e.to_text();
        (CutoverStep::Abort(e), Some(CutoverState::Abort { error }))
    }

    /// Waits for replication to get close: traffic is paused once every shard has
    /// told its distance and none is further than allowed.
    fn wait_for_replication(&mut self, lag: Option<u64>) -> (out: (
        CutoverStep,
        Option<CutoverState>,
    ))
        ensures
            match lag {
                Some(l) => {
                    &&& out.1 matches Some(CutoverState::WaitingForReplication { lag: told })
                        && told == l
                    &&& if l <= old(self).config.traffic_stop_threshold {
                        *final(self) == (Cutover {
                            stage: Stage::CancelQueries,
                            paused: true,
                            ..*old(self)
                        }) && out.0 is PauseTraffic
                    } else {
                        *final(self) == *old(self) && out.0 is Wait
                    }
                },
                None => *final(self) == *old(self) && out.0 is Wait && out.1 is None,
            },
    {
        match lag {
            None => (CutoverStep::Wait, None),
            Some(lag) => {
                let report: Option<CutoverState> = Some(
                    CutoverState::WaitingForReplication { lag },
                );
                if lag <= self.config.traffic_stop_threshold {
                    self.stage = Stage::CancelQueries;
                    self.paused = true;
                    (CutoverStep::PauseTraffic, report)
                } else {
                    (CutoverStep::Wait, report)
                }
            },
        }
    }

    /// Waits for replication to catch up. After too long, the cutover is given up
    /// or goes ahead, as configured.
    fn wait_for_cutover(
        &mut self,
        lag: Option<u64>,
        last_transaction: Option<u128>,
        elapsed: u128,
    ) -> (out: (CutoverStep, Option<CutoverState>))
        ensures
            ({
                let decision = cutover_decision(
                    old(self).config,
                    lag,
                    last_transaction,
                    elapsed,
                );
                &&& out.1 == Some(CutoverState::WaitForCutover { action: decision })
                &&& match decision {
                    CutoverAction::NoGo(_) => *final(self) == *old(self) && out.0 is Wait,
                    CutoverAction::Go(reason) => if reason == CutoverReason::Timeout && old(
                        self,
                    ).config.timeout_action == CutoverTimeoutAction::Abort {
                        *final(self) == old(self).over() && out.0 == CutoverStep::Abort(
                            Error::AbortTimeout,
                        )
                    } else {
                        *final(self) == old(self).at(Stage::StopStreams) && out.0 is StopStreams
                    },
                }
            }),
    {
        let action: CutoverAction = should_cutover(
            &self.config,
            lag,
            last_transaction,
            elapsed,
        );
        let report: Option<CutoverState> = Some(CutoverState::WaitForCutover { action });
        match action {
            CutoverAction::NoGo(_) => (CutoverStep::Wait, report),
            CutoverAction::Go(reason) => {
                if reason == CutoverReason::Timeout && self.config.timeout_action
                    == CutoverTimeoutAction::Abort {
                    self.stage = Stage::Finished;
                    self.paused = false;
                    (CutoverStep::Abort(Error::AbortTimeout), report)
                } else {
                    self.stage = Stage::StopStreams;
                    (CutoverStep::StopStreams, report)
                }
            },
        }
    }

    /// What comes once a stage has been done.
    pub open spec fn after(self) -> (Cutover, CutoverStep) {
        match self.stage {
            Stage::CancelQueries => (self.at(Stage::WaitForCutover), CutoverStep::Catchup),
            Stage::StopStreams => (self.at(Stage::SyncSchema), CutoverStep::SyncSchema),
            Stage::SyncSchema => (self.at(Stage::SwitchTraffic), CutoverStep::SwitchTraffic),
            Stage::SwitchTraffic => (self.at(Stage::Refresh), CutoverStep::Refresh),
            Stage::Refresh => (self.at(Stage::ReverseReplication), CutoverStep::ReverseReplication),
            Stage::ReverseReplication => (self.over(), CutoverStep::Complete),
            _ => (self, CutoverStep::Wait),
        }
    }

    /// What comes of an event.
    pub open spec fn on(self, event: CutoverEvent) -> (Cutover, CutoverStep) {
        match event {
            CutoverEvent::Cancelled => (self.over(), CutoverStep::Stop),
            CutoverEvent::Failed(e) => (self.over(), CutoverStep::Abort(e)),
            CutoverEvent::StreamsFailed(e) => if self.stage == Stage::WaitForReplication {
                (self.over(), CutoverStep::Fail(e))
            } else {
                (self.over(), CutoverStep::Abort(e))
            },
            CutoverEvent::Succeeded => self.after(),
            CutoverEvent::Tick { lag, last_transaction, elapsed } => if self.stage
                == Stage::WaitForReplication {
                if lag is Some && lag->0 <= self.config.traffic_stop_threshold {
                    (
                        Cutover { stage: Stage::CancelQueries, paused: true, ..self },
                        CutoverStep::PauseTraffic,
                    )
                } else {
                    (self, CutoverStep::Wait)
                }
            } else {
                match cutover_decision(self.config, lag, last_transaction, elapsed) {
                    CutoverAction::NoGo(_) => (self, CutoverStep::Wait),
                    CutoverAction::Go(reason) => if reason == CutoverReason::Timeout
                        && self.config.timeout_action == CutoverTimeoutAction::Abort {
                        (self.over(), CutoverStep::Abort(Error::AbortTimeout))
                    } else {
                        (self.at(Stage::StopStreams), CutoverStep::StopStreams)
                    },
                }
            },
        }
    }

    /// Takes what happened and tells what is to be done, and what is reported.
    pub fn next(&mut self, event: CutoverEvent) -> (out: (CutoverStep, Option<CutoverState>))
        requires
            old(self).wf(),
            old(self).awaits(event),
        ensures
            final(self).wf(),
            (*final(self), out.0) == old(self).on(event),
            match event {
                CutoverEvent::Cancelled => {
                    &&& *final(self) == old(self).over()
                    &&& out.0 is Stop
                    &&& out.1 matches Some(CutoverState::Abort { error }) && error@
                        == "stopped before cutover"@
                },
                CutoverEvent::Failed(e) => {
                    &&& *final(self) == old(self).over()
                    &&& out.0 == CutoverStep::Abort(e)
                    &&& out.1 matches Some(CutoverState::Abort { error }) && error@ == e.text()
                },
                CutoverEvent::StreamsFailed(e) => {
                    &&& *final(self) == old(self).over()
                    &&& if old(self).stage == Stage::WaitForReplication {
                        out.0 == CutoverStep::Fail(e) && out.1 is None
                    } else {
                        &&& out.0 == CutoverStep::Abort(e)
                        &&& out.1 matches Some(CutoverState::Abort { error }) && error@ == e.text()
                    }
                },
                CutoverEvent::Succeeded => {
                    &&& (*final(self), out.0) == old(self).after()
                    &&& if old(self).stage == Stage::ReverseReplication {
                        out.1 == Some(CutoverState::Complete)
                    } else {
                        out.1 is None
                    }
                },
                CutoverEvent::Tick { lag, last_transaction, elapsed } => if old(self).stage
                    == Stage::WaitForReplication {
                    match lag {
                        Some(l) => {
                            &&& out.1 matches Some(
                                CutoverState::WaitingForReplication { lag: told },
                            ) && told == l
                            &&& if l <= old(self).config.traffic_stop_threshold {
                                *final(self) == (Cutover {
                                    stage: Stage::CancelQueries,
                                    paused: true,
                                    ..*old(self)
                                }) && out.0 is PauseTraffic
                            } else {
                                *final(self) == *old(self) && out.0 is Wait
                            }
                        },
                        None => *final(self) == *old(self) && out.0 is Wait && out.1 is None,
                    }
                } else {
                    let decision = cutover_decision(
                        old(self).config,
                        lag,
                        last_transaction,
                        elapsed,
                    );
                    &&& out.1 == Some(CutoverState::WaitForCutover { action: decision })
                    &&& match decision {
                        CutoverAction::NoGo(_) => *final(self) == *old(self) && out.0 is Wait,
                        CutoverAction::Go(reason) => if reason == CutoverReason::Timeout && old(
                            self,
                        ).config.timeout_action == CutoverTimeoutAction::Abort {
                            *final(self) == old(self).over() && out.0 == CutoverStep::Abort(
                                Error::AbortTimeout,
                            )
                        } else {
                            *final(self) == old(self).at(Stage::StopStreams) && out.0 is StopStreams
                        },
                    }
                },
            },
            ends(out.0) ==> !final(self).paused && final(self).stage == Stage::Finished,
    {
        match event {
            CutoverEvent::Cancelled => {
                self.stage = Stage::Finished;
                self.paused = false;
                (
                    CutoverStep::Stop,
                    Some(CutoverState::Abort { error: "stopped before cutover".to_owned() }),
                )
            },
            CutoverEvent::Failed(e) => self.abort(e),
            CutoverEvent::StreamsFailed(e) => {
                if self.stage == Stage::WaitForReplication {
                    self.stage = Stage::Finished;
                    (CutoverStep::Fail(e), None)
                } else {
                    self.abort(e)
                }
            },
            CutoverEvent::Tick { lag, last_transaction, elapsed } => {
                if self.stage == Stage::WaitForReplication {
                    self.wait_for_replication(lag)
                } else {
                    self.wait_for_cutover(lag, last_transaction, elapsed)
                }
            },
            CutoverEvent::Succeeded => match self.stage {
                Stage::CancelQueries => {
                    self.stage = Stage::WaitForCutover;
                    (CutoverStep::Catchup, None)
                },
                Stage::StopStreams => {
                    self.stage = Stage::SyncSchema;
                    (CutoverStep::SyncSchema, None)
                },
                Stage::SyncSchema => {
                    self.stage = Stage::SwitchTraffic;
                    (CutoverStep::SwitchTraffic, None)
                },
                Stage::SwitchTraffic => {
                    self.stage = Stage::Refresh;
                    (CutoverStep::Refresh, None)
                },
                Stage::Refresh => {
                    self.stage = Stage::ReverseReplication;
                    (CutoverStep::ReverseReplication, None)
                },
                Stage::ReverseReplication => {
                    self.stage = Stage::Finished;
                    self.paused = false;
                    (CutoverStep::Complete, Some(CutoverState::Complete))
                },
                _ => (CutoverStep::Wait, None),
            },
        }
    }
}

/// Traffic is paused exactly between the pause and the end: a cutover that is over
/// leaves it running.
pub proof fn law_traffic_resumes(c: Cutover)
    requires
        c.wf(),
        c.stage == Stage::Finished,
    ensures
        !c.paused,
{
}

/// Traffic is moved only while it is paused, after the streams have ended and the
/// rest of the schema has been moved.
pub proof fn law_traffic_moves_while_paused(c: Cutover)
    requires
        c.wf(),
        c.after().1 is SwitchTraffic,
    ensures
        c.paused,
        c.stage == Stage::SyncSchema,
{
}

/// Once the streams are being stopped, a cutover can't be called off.
pub proof fn law_no_way_back(c: Cutover)
    requires
        c.stage == Stage::StopStreams || c.stage == Stage::SyncSchema || c.stage
            == Stage::SwitchTraffic || c.stage == Stage::Refresh || c.stage
            == Stage::ReverseReplication,
    ensures
        !c.awaits(CutoverEvent::Cancelled),
{
}

/// Without a word from every shard, replication does not count as close, however
/// close the others are.
pub proof fn law_unknown_distance_is_not_close(
    config: CutoverConfig,
    last_transaction: Option<u128>,
    elapsed: u128,
)
    ensures
        cutover_decision(config, None, last_transaction, elapsed) != CutoverAction::Go(
            CutoverReason::Lag,
        ),
{
}

/// The longer the wait, the readier the cutover: once it may go ahead for the time
/// that has passed, it may at any later time.
pub proof fn law_timeout_stays(
    config: CutoverConfig,
    lag: Option<u64>,
    last_transaction: Option<u128>,
    earlier: u128,
    later: u128,
)
    requires
        earlier <= later,
        cutover_decision(config, lag, last_transaction, earlier) == CutoverAction::Go(
            CutoverReason::Timeout,
        ),
    ensures
        cutover_decision(config, lag, last_transaction, later) == CutoverAction::Go(
            CutoverReason::Timeout,
        ),
{
}

/// A cutover after some events.
pub open spec fn cutover_after(c: Cutover, events: Seq<CutoverEvent>) -> Cutover
    decreases events.len(),
{
    if events.len() == 0 {
        c
    } else {
        cutover_after(c, events.drop_last()).on(events.last()).0
    }
}

/// What has been asked for over some events, but for the waiting.
pub open spec fn asked_for(c: Cutover, events: Seq<CutoverEvent>) -> Seq<CutoverStep>
    decreases events.len(),
{
    if events.len() == 0 {
        Seq::empty()
    } else {
        let before = asked_for(c, events.drop_last());
        let step = cutover_after(c, events.drop_last()).on(events.last()).1;
        if step is Wait {
            before
        } else {
            before.push(step)
        }
    }
}

/// Whether every event can come when it does.
pub open spec fn comes_in_turn(c: Cutover, events: Seq<CutoverEvent>) -> bool
    decreases events.len(),
{
    events.len() > 0 ==> {
        &&& comes_in_turn(c, events.drop_last())
        &&& cutover_after(c, events.drop_last()).awaits(events.last())
    }
}

/// All that a cutover asks for, in order.
pub open spec fn course() -> Seq<CutoverStep> {
    seq![
        CutoverStep::PauseTraffic,
        CutoverStep::Catchup,
        CutoverStep::StopStreams,
        CutoverStep::SyncSchema,
        CutoverStep::SwitchTraffic,
        CutoverStep::Refresh,
        CutoverStep::ReverseReplication,
        CutoverStep::Complete,
    ]
}

/// How much has been asked for when a cutover has come to a stage.
spec fn way_to(stage: Stage) -> int {
    match stage {
        Stage::WaitForReplication => 0,
        Stage::CancelQueries => 1,
        Stage::WaitForCutover => 2,
        Stage::StopStreams => 3,
        Stage::SyncSchema => 4,
        Stage::SwitchTraffic => 5,
        Stage::Refresh => 6,
        Stage::ReverseReplication => 7,
        Stage::Finished => 8,
    }
}

proof fn lemma_course(config: CutoverConfig, events: Seq<CutoverEvent>)
    requires
        comes_in_turn(
            (Cutover { stage: Stage::WaitForReplication, paused: false, config }),
            events,
        ),
    ensures
        ({
            let start = Cutover { stage: Stage::WaitForReplication, paused: false, config };
            let now = cutover_after(start, events);
            let asked = asked_for(start, events);
            &&& now.config == config
            &&& if now.stage == Stage::Finished {
                asked == course() || (asked.len() > 0 && ends(asked.last()) && !(
                asked.last() is Complete) && asked.drop_last() == course().take(
                    asked.len() - 1,
                ) && asked.len() <= 8)
            } else {
                asked == course().take(way_to(now.stage))
            }
        }),
    decreases events.len(),
{
    let start = Cutover { stage: Stage::WaitForReplication, paused: false, config };
    if events.len() == 0 {
        assert(course().take(0) =~= Seq::empty());
    } else {
        lemma_course(config, events.drop_last());
        let before = cutover_after(start, events.drop_last());
        let asked = asked_for(start, events.drop_last());
        let (now, step) = before.on(events.last());
        assert(asked =~= course().take(way_to(before.stage)));
        if !(step is Wait) {
            let all = asked_for(start, events);
            assert(all == asked.push(step));
            assert(all.drop_last() =~= asked);
            if now.stage == Stage::Finished {
                if step is Complete {
                    assert(all =~= course());
                }
            } else {
                assert(all =~= course().take(way_to(now.stage)));
            }
        }
    }
}

/// A cutover that ends with its completion has asked for the pause of traffic, for
/// replication to catch up, for the end of the streams, for the rest of the schema,
/// for the switch of traffic, for both ends to be looked up again and for replication
/// back: each once, and in this order.
pub proof fn law_completed_cutovers_take_every_step(
    config: CutoverConfig,
    events: Seq<CutoverEvent>,
)
    requires
        comes_in_turn(
            (Cutover { stage: Stage::WaitForReplication, paused: false, config }),
            events,
        ),
        asked_for(
            (Cutover { stage: Stage::WaitForReplication, paused: false, config }),
            events,
        ).contains(CutoverStep::Complete),
    ensures
        asked_for(
            (Cutover { stage: Stage::WaitForReplication, paused: false, config }),
            events,
        ) == seq![
            CutoverStep::PauseTraffic,
            CutoverStep::Catchup,
            CutoverStep::StopStreams,
            CutoverStep::SyncSchema,
            CutoverStep::SwitchTraffic,
            CutoverStep::Refresh,
            CutoverStep::ReverseReplication,
            CutoverStep::Complete,
        ],
{
    lemma_course(config, events);
    let start = Cutover { stage: Stage::WaitForReplication, paused: false, config };
    let asked = asked_for(start, events);
    let k = choose|k: int| 0 <= k < asked.len() && asked[k] == CutoverStep::Complete;
    assert(asked[k] is Complete);
    if asked != course() {
        if cutover_after(start, events).stage == Stage::Finished {
            assert(k < asked.len() - 1);
            assert(asked[k] == asked.drop_last()[k]);
            assert(asked.drop_last()[k] == course()[k]);
        } else {
            assert(asked[k] == course()[k]);
        }
    }
}

/// However far a cutover comes, it has asked for the first steps of the whole course,
/// and for an end behind them where it was given up.
pub proof fn law_cutovers_keep_the_course(config: CutoverConfig, events: Seq<CutoverEvent>, k: int)
    requires
        comes_in_turn(
            (Cutover { stage: Stage::WaitForReplication, paused: false, config }),
            events,
        ),
        0 <= k < asked_for(
            (Cutover { stage: Stage::WaitForReplication, paused: false, config }),
            events,
        ).len(),
    ensures
        ({
            let asked = asked_for(
                (Cutover { stage: Stage::WaitForReplication, paused: false, config }),
                events,
            );
            &&& k < 8
            &&& asked[k] == course()[k] || (k == asked.len() - 1 && (asked[k] is Abort
                || asked[k] is Stop || asked[k] is Fail))
        }),
{
    lemma_course(config, events);
    let start = Cutover { stage: Stage::WaitForReplication, paused: false, config };
    let asked = asked_for(start, events);
    if asked != course() && cutover_after(start, events).stage == Stage::Finished {
        if k < asked.len() - 1 {
            assert(asked[k] == asked.drop_last()[k]);
        }
    }
}

/// What a cutover does while it waits for replication: traffic is paused once the
/// distance is known and within the threshold, and not before.
pub proof fn law_traffic_is_paused_when_close(
    c: &mut Cutover,
    lag: Option<u64>,
    last_transaction: Option<u128>,
    elapsed: u128,
    out: (CutoverStep, Option<CutoverState>),
)
    requires
        call_ensures(
            Cutover::next,
            (c, (CutoverEvent::Tick { lag, last_transaction, elapsed })),
            out,
        ),
        old(c).stage == Stage::WaitForReplication,
    ensures
        (lag matches Some(l) && l <= old(c).config.traffic_stop_threshold) <==> out.0
            is PauseTraffic,
        out.0 is PauseTraffic <==> !(out.0 is Wait),
        out.0 is PauseTraffic ==> final(c).paused && final(c).stage == Stage::CancelQueries,
        out.0 is Wait ==> *final(c) == *old(c),
        lag matches Some(l) ==> out.1 == Some(CutoverState::WaitingForReplication { lag: l }),
        lag is None ==> out.1 is None,
{
}

/// What a cutover does while it waits for replication to catch up: it goes ahead once
/// the distance is within the threshold, or the last transaction is long past, or the
/// time is up; but where the time is up, it is given up if so configured. Milliseconds
/// are configured and nanoseconds measured.
pub proof fn law_cutovers_go_ahead(
    c: &mut Cutover,
    lag: Option<u64>,
    last_transaction: Option<u128>,
    elapsed: u128,
    out: (CutoverStep, Option<CutoverState>),
)
    requires
        call_ensures(
            Cutover::next,
            (c, (CutoverEvent::Tick { lag, last_transaction, elapsed })),
            out,
        ),
        old(c).stage == Stage::WaitForCutover,
    ensures
        ({
            let config = old(c).config;
            let late = elapsed >= config.timeout * 1_000_000;
            let close = lag matches Some(l) && l <= config.replication_lag_threshold;
            let quiet = last_transaction matches Some(t) ==> t > config.last_transaction_delay
                * 1_000_000;
            if late && config.timeout_action == CutoverTimeoutAction::Abort {
                &&& out.0 == CutoverStep::Abort(Error::AbortTimeout)
                &&& final(c).stage == Stage::Finished
                &&& !final(c).paused
            } else if late || close || quiet {
                &&& out.0 is StopStreams
                &&& final(c).stage == Stage::StopStreams
            } else {
                &&& out.0 is Wait
                &&& *final(c) == *old(c)
            }
        }),
        out.1 == Some(
            CutoverState::WaitForCutover {
                action: if elapsed >= old(c).config.timeout * 1_000_000 {
                    CutoverAction::Go(CutoverReason::Timeout)
                } else if lag matches Some(l) && l <= old(c).config.replication_lag_threshold {
                    CutoverAction::Go(CutoverReason::Lag)
                } else if last_transaction matches Some(t) ==> t > old(
                    c,
                ).config.last_transaction_delay * 1_000_000 {
                    CutoverAction::Go(CutoverReason::LastTransaction)
                } else {
                    CutoverAction::NoGo(
                        super::orchestrator::CutoverData {
                            lag: if let Some(l) = lag {
                                l
                            } else {
                                u64::MAX
                            },
                            last_transaction,
                            elapsed,
                        },
                    )
                },
            },
        ),
{
}

/// A failure ends a cutover and lets traffic go on; before traffic was paused, there
/// is nothing to undo. A cutover that is called off ends without an error. What is
/// reported says why.
pub proof fn law_failures_end_cutovers(
    c: &mut Cutover,
    event: CutoverEvent,
    out: (CutoverStep, Option<CutoverState>),
)
    requires
        call_ensures(Cutover::next, (c, event), out),
        event is Failed || event is StreamsFailed || event is Cancelled,
    ensures
        final(c).stage == Stage::Finished,
        !final(c).paused,
        event is Cancelled ==> out.0 is Stop,
        event matches CutoverEvent::Failed(e) ==> out.0 == CutoverStep::Abort(e),
        event matches CutoverEvent::StreamsFailed(e) ==> out.0 == (if old(c).stage
            == Stage::WaitForReplication {
            CutoverStep::Fail(e)
        } else {
            CutoverStep::Abort(e)
        }),
        out.1 matches Some(CutoverState::Abort { error }) <==> !(out.0 is Fail),
        out.0 matches CutoverStep::Abort(e) ==> (out.1 matches Some(
            CutoverState::Abort { error },
        ) && error@ == e.text()),
{
}

/// What is done is what the next step is taken from, and the end of the last one is
/// the end of the cutover.
pub proof fn law_steps_follow_each_other(
    c: &mut Cutover,
    out: (CutoverStep, Option<CutoverState>),
)
    requires
        call_ensures(Cutover::next, (c, CutoverEvent::Succeeded), out),
        old(c).wf(),
        old(c).awaits(CutoverEvent::Succeeded),
    ensures
        match old(c).stage {
            Stage::CancelQueries => out.0 is Catchup && final(c).stage == Stage::WaitForCutover,
            Stage::StopStreams => out.0 is SyncSchema && final(c).stage == Stage::SyncSchema,
            Stage::SyncSchema => out.0 is SwitchTraffic && final(c).stage == Stage::SwitchTraffic,
            Stage::SwitchTraffic => out.0 is Refresh && final(c).stage == Stage::Refresh,
            Stage::Refresh => out.0 is ReverseReplication && final(c).stage
                == Stage::ReverseReplication,
            _ => out.0 is Complete && final(c).stage == Stage::Finished,
        },
        final(c).paused <==> !(out.0 is Complete),
        final(c).config == old(c).config,
        out.1 == (if out.0 is Complete {
            Some(CutoverState::Complete)
        } else {
            None
        }),
{
}

} // verus!
