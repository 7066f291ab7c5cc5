//! The parameters and the shard of one change of the stream.

use vstd::prelude::*;

use super::error::Error;
use super::routing::{Shard, ShardView};
use super::statements::Parse;
use super::tuple::{bind_of, Bind, BindView, TupleData};

verus! {

/// The parameters of a change, and the shard that it goes to.
#[derive(Debug)]
pub struct StreamContext {
    bind: Bind,
    shard: Shard,
}

/// What the router made of a statement.
#[derive(Debug)]
pub enum Routed {
    /// A query, and its shards.
    Query(Shard),
    /// Something else.
    Other,
}

/// What the router has to do for a change.
#[derive(Debug)]
pub enum RouteAction {
    /// Route it.
    Route,
    /// Look up the sharding keys that are not known, and route it once more.
    Resolve,
    /// Nothing: it is known where the change goes.
    Done(StreamContext),
    /// Nothing: it can't be routed.
    Failed(Error),
}

/// What the router came to.
#[derive(Debug)]
pub enum RouteEvent {
    /// The statement was routed, with a number of sharding keys left to look up.
    Routed { pending: usize, routed: Routed },
    /// The keys have been looked up.
    Resolved,
    /// A key can't be looked up.
    LookupFailed(String),
    /// The statement can't be routed.
    RouteFailed(Error),
}

/// The routing of a change. Sharding keys that are not known are looked up once: a
/// row is never placed by a key that was not translated.
#[derive(Debug)]
pub struct Routing {
    bind: Bind,
    resolved: bool,
}

/// The state of a [`Routing`].
pub struct RoutingView {
    pub bind: BindView,
    pub resolved: bool,
}

impl View for Routing {
    type V = RoutingView;

    closed spec fn view(&self) -> RoutingView {
        RoutingView { bind: self.bind@, resolved: self.resolved }
    }
}

impl Routing {
    /// The routing of a row by a statement.
    pub fn new(tuple: &TupleData, stmt: &Parse) -> (out: Routing)
        ensures
            out@ == (RoutingView { bind: bind_of(tuple@, stmt@.name), resolved: false }),
    {
        Routing { bind: tuple.to_bind(stmt.name.as_str()), resolved: false }
    }

    /// The parameters to route by.
    pub fn bind(&self) -> (out: &Bind)
        ensures
            out@ == self@.bind,
    {
        &self.bind
    }

    /// Takes what the router came to and tells what it has to do. Keys that are
    /// still not known after they were looked up are an error, and so is a statement
    /// that is no query.
    pub fn next(&mut self, event: RouteEvent) -> (action: RouteAction)
        ensures
            final(self)@.bind == old(self)@.bind,
            match event {
                RouteEvent::RouteFailed(e) => action == RouteAction::Failed(e)
                    && final(self)@.resolved == old(self)@.resolved,
                RouteEvent::LookupFailed(message) => action == RouteAction::Failed(
                    Error::Lookup(message),
                ) && final(self)@.resolved == old(self)@.resolved,
                RouteEvent::Resolved => action is Route && final(self)@.resolved,
                RouteEvent::Routed { pending, routed } => {
                    &&& final(self)@.resolved == old(self)@.resolved
                    &&& if pending > 0 && !old(self)@.resolved {
                        action is Resolve
                    } else if pending > 0 {
                        action matches RouteAction::Failed(Error::Lookup(message)) && message@
                            == "lookups did not resolve routing"@
                    } else {
                        match routed {
                            Routed::Query(shard) => action matches RouteAction::Done(context)
                                && context.spec_shard() == shard@ && context.spec_bind()
                                == old(self)@.bind,
                            Routed::Other => action matches RouteAction::Failed(
                                Error::IncorrectCommand,
                            ),
                        }
                    }
                },
            },
    {
        match event {
            RouteEvent::RouteFailed(e) => RouteAction::Failed(e),
            RouteEvent::LookupFailed(message) => RouteAction::Failed(Error::Lookup(message)),
            RouteEvent::Resolved => {
                self.resolved = true;
                RouteAction::Route
            },
            RouteEvent::Routed { pending, routed } => {
                if pending > 0 {
                    if !self.resolved {
                        return RouteAction::Resolve;
                    }
                    return RouteAction::Failed(
                        Error::Lookup("lookups did not resolve routing".to_owned()),
                    );
                }
                match routed {
                    Routed::Query(shard) => RouteAction::Done(
                        StreamContext { bind: self.bind.copy(), shard },
                    ),
                    Routed::Other => RouteAction::Failed(Error::IncorrectCommand),
                }
            },
        }
    }
}

impl StreamContext {
    pub closed spec fn spec_bind(self) -> BindView {
        self.bind@
    }

    pub closed spec fn spec_shard(self) -> ShardView {
        self.shard@
    }

    /// The parameters of a row for a statement, and the shard that they were routed
    /// to.
    pub fn new(tuple: &TupleData, stmt: &Parse, shard: Shard) -> (out: StreamContext)
        ensures
            out.spec_bind() == bind_of(tuple@, stmt@.name),
            out.spec_shard() == shard@,
    {
        StreamContext { bind: tuple.to_bind(stmt.name.as_str()), shard }
    }

    /// The parameters to send.
    pub fn bind(&self) -> (out: &Bind)
        ensures
            out@ == self.spec_bind(),
    {
        &self.bind
    }

    /// The shard and the parameters, so that they can be sent without a copy.
    pub fn into_parts(self) -> (out: (Shard, Bind))
        ensures
            out.0@ == self.spec_shard(),
            out.1@ == self.spec_bind(),
    {
        (self.shard, self.bind)
    }

    /// The shards to send to.
    pub fn shard(&self) -> (out: &Shard)
        ensures
            out@ == self.spec_shard(),
    {
        &self.shard
    }
}

} // verus!
