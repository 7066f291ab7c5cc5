//! Where a change of a row goes.

use vstd::prelude::*;

verus! {

/// The shards that a statement was routed to.
#[derive(Debug)]
pub enum Shard {
    Direct(usize),
    Multi(Vec<usize>),
    All,
}

/// The contents of a [`Shard`].
pub enum ShardView {
    Direct(usize),
    Multi(Seq<usize>),
    All,
}

impl View for Shard {
    type V = ShardView;

    open spec fn view(&self) -> ShardView {
        match self {
            Shard::Direct(n) => ShardView::Direct(*n),
            Shard::Multi(v) => ShardView::Multi(v@),
            Shard::All => ShardView::All,
        }
    }
}

impl Shard {
    /// Whether there is one shard to go to.
    pub fn is_direct(&self) -> (b: bool)
        ensures
            b == (self@ is Direct),
    {
        matches!(self, Shard::Direct(_))
    }

    /// Whether two routes are the same.
    pub fn same(&self, other: &Shard) -> (b: bool)
        ensures
            b == (self@ == other@),
    {
        match (self, other) {
            (Shard::Direct(a), Shard::Direct(b)) => *a == *b,
            (Shard::Multi(a), Shard::Multi(b)) => same_numbers(a, b),
            (Shard::All, Shard::All) => true,
            _ => false,
        }
    }
}

fn same_numbers(a: &Vec<usize>, b: &Vec<usize>) -> (same: bool)
    ensures
        same == (a@ == b@),
{
    if a.len() != b.len() {
        return false;
    }
    let mut i: usize = 0;
    while i < a.len()
        invariant
            i <= a.len(),
            a.len() == b.len(),
            forall|j: int| 0 <= j < i ==> a@[j] == b@[j],
        decreases a.len() - i,
    {
        if a[i] != b[i] {
            return false;
        }
        i += 1;
    }
    assert(a@ =~= b@);
    true
}

fn contains_number(list: &Vec<usize>, n: usize) -> (b: bool)
    ensures
        b == list@.contains(n),
{
    let mut i: usize = 0;
    while i < list.len()
        invariant
            i <= list.len(),
            forall|j: int| 0 <= j < i ==> list@[j] != n,
        decreases list.len() - i,
    {
        if list[i] == n {
            return true;
        }
        i += 1;
    }
    false
}

/// Which shards of the destination a subscriber writes tables on every shard to.
/// Each of several subscribers, one for each source shard, takes its share.
#[derive(Debug, Clone, Copy, PartialEq, Eq, Structural)]
pub struct OmniOwnership {
    pub source: usize,
    pub sources: usize,
}

impl OmniOwnership {
    /// The share of one of several source shards.
    pub fn new(source: usize, sources: usize) -> (out: OmniOwnership)
        ensures
            out.source == source,
            out.sources == sources,
    {
        OmniOwnership { source, sources }
    }

    /// The share of a single source shard: everything.
    pub fn test() -> (out: OmniOwnership)
        ensures
            out.source == 0,
            out.sources == 1,
    {
        OmniOwnership { source: 0, sources: 1 }
    }

    /// Whether a shard of the destination is in the share.
    pub open spec fn spec_owns(self, shard: int) -> bool {
        self.sources > 0 && shard % (self.sources as int) == self.source
    }

    /// Whether a shard of the destination is in the share.
    pub fn owns(&self, shard: usize) -> (b: bool)
        ensures
            b == self.spec_owns(shard as int),
    {
        self.sources > 0 && shard % self.sources == self.source
    }
}

/// Whether a write goes to a connection. With one connection the router turns
/// every route into the only shard, so that the share decides there, as it does
/// for writes to all shards.
pub open spec fn is_target(
    route: ShardView,
    connections: nat,
    share: OmniOwnership,
    shard: int,
) -> bool {
    match route {
        ShardView::Direct(direct) => if connections > 1 {
            shard == direct
        } else {
            share.spec_owns(shard)
        },
        ShardView::Multi(multi) => if connections > 1 {
            multi.contains(shard as usize)
        } else {
            share.spec_owns(shard)
        },
        ShardView::All => share.spec_owns(shard),
    }
}

/// The connections below a number that a write goes to, in order.
pub open spec fn targets_below(
    route: ShardView,
    connections: nat,
    share: OmniOwnership,
    n: nat,
) -> Seq<usize>
    decreases n,
{
    if n == 0 {
        Seq::empty()
    } else {
        let before = targets_below(route, connections, share, (n - 1) as nat);
        if is_target(route, connections, share, n - 1) {
            before.push((n - 1) as usize)
        } else {
            before
        }
    }
}

/// The connections that a write goes to, in order.
pub open spec fn targets_of(route: ShardView, connections: nat, share: OmniOwnership) -> Seq<
    usize,
> {
    targets_below(route, connections, share, connections)
}

/// The connections that a write goes to, in order.
pub fn targets(route: &Shard, connections: usize, share: &OmniOwnership) -> (out: Vec<usize>)
    ensures
        out@ == targets_of(route@, connections as nat, *share),
{
    let mut out: Vec<usize> = Vec::new();
    let mut shard: usize = 0;
    assert(out@ =~= targets_below(route@, connections as nat, *share, 0));
    while shard < connections
        invariant
            shard <= connections,
            out@ == targets_below(route@, connections as nat, *share, shard as nat),
        decreases connections - shard,
    {
        let target: bool = match route {
            Shard::Direct(direct) => if connections > 1 {
                shard == *direct
            } else {
                share.owns(shard)
            },
            Shard::Multi(multi) => if connections > 1 {
                contains_number(multi, shard)
            } else {
                share.owns(shard)
            },
            Shard::All => share.owns(shard),
        };
        if target {
            out.push(shard);
        }
        shard += 1;
    }
    out
}

proof fn lemma_targets(
    route: ShardView,
    connections: nat,
    share: OmniOwnership,
    n: nat,
    shard: int,
)
    requires
        n <= connections <= usize::MAX,
    ensures
        targets_below(route, connections, share, n).contains(shard as usize) && 0 <= shard
            <= usize::MAX ==> shard < n && is_target(route, connections, share, shard),
        0 <= shard < n && is_target(route, connections, share, shard) ==> targets_below(
            route,
            connections,
            share,
            n,
        ).contains(shard as usize),
    decreases n,
{
    if n > 0 {
        let before = targets_below(route, connections, share, (n - 1) as nat);
        lemma_targets(route, connections, share, (n - 1) as nat, shard);
        if is_target(route, connections, share, n - 1) {
            vstd::seq_lib::lemma_seq_contains_after_push(
                before,
                (n - 1) as usize,
                shard as usize,
            );
        }
    }
}

/// A write to one shard goes to that shard and nowhere else, where there are
/// several.
pub proof fn law_direct_write_goes_to_its_shard(
    direct: usize,
    connections: nat,
    share: OmniOwnership,
    shard: usize,
)
    requires
        1 < connections <= usize::MAX,
    ensures
        targets_of(ShardView::Direct(direct), connections, share).contains(shard) <==> shard
            == direct && shard < connections,
{
    lemma_targets(ShardView::Direct(direct), connections, share, connections, shard as int);
}

/// A write to all shards reaches each shard through exactly one of the
/// subscribers that split the source between them.
pub proof fn law_omni_writes_are_split(
    connections: nat,
    sources: usize,
    shard: usize,
    source: usize,
)
    requires
        connections <= usize::MAX,
        0 < sources,
        shard < connections,
        source < sources,
    ensures
        targets_of(
            ShardView::All,
            connections,
            OmniOwnership { source, sources },
        ).contains(shard) <==> source == shard % sources,
{
    lemma_targets(
        ShardView::All,
        connections,
        OmniOwnership { source, sources },
        connections,
        shard as int,
    );
}

proof fn lemma_targets_ascend(
    route: ShardView,
    connections: nat,
    share: OmniOwnership,
    n: nat,
)
    requires
        n <= connections <= usize::MAX,
    ensures
        ({
            let out = targets_below(route, connections, share, n);
            &&& forall|j: int, k: int| 0 <= j < k < out.len() ==> out[j] < out[k]
            &&& forall|j: int| 0 <= j < out.len() ==> (#[trigger] out[j]) < n
        }),
    decreases n,
{
    if n > 0 {
        lemma_targets_ascend(route, connections, share, (n - 1) as nat);
        let before = targets_below(route, connections, share, (n - 1) as nat);
        let out = targets_below(route, connections, share, n);
        assert(forall|j: int| 0 <= j < before.len() ==> (#[trigger] before[j]) < n - 1);
        assert(forall|j: int| 0 <= j < before.len() ==> (#[trigger] out[j]) == before[j]);
        assert((n - 1) as usize == n - 1);
    }
}

/// A write goes once to every shard that it is meant for. Where there are several
/// shards, a route to one or to some of them means just these. A route to all of
/// them, and any route where there is one shard only, means the shards that fall to
/// the subscriber, which are every so manieth one.
pub proof fn law_writes_go_where_they_are_meant_to(
    route: ShardView,
    connections: nat,
    share: OmniOwnership,
    shard: usize,
)
    requires
        connections <= usize::MAX,
    ensures
        ({
            let out = targets_of(route, connections, share);
            &&& forall|j: int, k: int| 0 <= j < k < out.len() ==> out[j] < out[k]
            &&& out.contains(shard) <==> shard < connections && match route {
                ShardView::Direct(direct) if connections > 1 => shard == direct,
                ShardView::Multi(shards) if connections > 1 => shards.contains(shard),
                _ => share.sources > 0 && shard % share.sources == share.source,
            }
        }),
{
    lemma_targets(route, connections, share, connections, shard as int);
    lemma_targets_ascend(route, connections, share, connections);
}

} // verus!
