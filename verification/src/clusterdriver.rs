//! Driving a cluster launch from the head.
//!
//! The head plans, and then asks. Every rank validates and reserves first, and
//! nothing starts until all of them have said yes; both phases roll back. A
//! cluster is either whole or absent, never partial.
//!
//! Nothing here talks to a machine. Each ceremony says what to do next and
//! takes what came of it; whoever holds the transport does it.
use crate::cluster::{copy_settings, RankAssignment, SettingValue};
use crate::fleet::routing::Socket;
use crate::node::NodeId;
use vstd::prelude::*;

pub mod ceremonies;
pub mod plan;

pub use ceremonies::{
    Commit, CommitStep, Prepare, PrepareDone, Preview, RankPrepare, RankPreview, Stop, Torn,
};


verus! {

/// How long a cluster settles before it is believed to have started, in
/// milliseconds. Not a wait for readiness: long enough to catch a rank that
/// dies on startup.
pub const SETTLE: u64 = 5_000;

/// One rank, resolved to somewhere reachable.
#[derive(Debug)]
pub struct Target {
    pub assignment: RankAssignment,
    /// Where to reach it; none where it is this machine.
    pub addr: Option<Socket>,
    pub name: String,
}

/// A prepare that has been accepted and is waiting to be committed.
#[derive(Debug)]
pub struct Pending {
    pub epoch: String,
    /// The port that rank zero serves on.
    pub port: u16,
    pub targets: Vec<Target>,
}

/// A rank that was started.
#[derive(Debug, Clone, PartialEq, Eq)]
pub struct RankStarted {
    pub node: NodeId,
    pub name: String,
    pub rank: u32,
    pub container: String,
    /// Where the model is served; rank zero only.
    pub endpoint: Option<String>,
}

impl RankStarted {
    /// An equal one.
    pub fn copy(&self) -> (r: RankStarted)
        ensures
            r == *self,
    {
        RankStarted {
            node: self.node,
            name: self.name.clone(),
            rank: self.rank,
            container: self.container.clone(),
            endpoint: crate::bench::event::copy_opt(&self.endpoint),
        }
    }
}

/// The same ranks.
pub fn copy_started(v: &Vec<RankStarted>) -> (r: Vec<RankStarted>)
    ensures
        r@ == v@,
{
    let mut out: Vec<RankStarted> = Vec::new();
    let mut i: usize = 0;
    while i < v.len()
        invariant
            i <= v.len(),
            out@ == v@.subrange(0, i as int),
        decreases v.len() - i,
    {
        out.push(v[i].copy());
        i += 1;
        assert(out@ =~= v@.subrange(0, i as int));
    }
    assert(v@.subrange(0, v@.len() as int) =~= v@);
    out
}

/// Two targets that say the same.
pub open spec fn alike(a: Target, b: Target) -> bool {
    &&& a.addr == b.addr
    &&& a.name == b.name
    &&& a.assignment.settings@ == b.assignment.settings@
    &&& a.assignment == (RankAssignment { settings: a.assignment.settings, ..b.assignment })
}

/// Lists of targets that say the same.
pub open spec fn all_alike(a: Seq<Target>, b: Seq<Target>) -> bool {
    a.len() == b.len() && forall|i: int| 0 <= i < a.len() ==> alike(#[trigger] a[i], b[i])
}

/// An equal place.
pub fn copy_addr(a: &Option<Socket>) -> (r: Option<Socket>)
    ensures
        r == *a,
{
    match a {
        Some(s) => Some(s.copy()),
        None => None,
    }
}

impl Target {
    /// One that says the same.
    pub fn copy(&self) -> (r: Target)
        ensures
            alike(r, *self),
    {
        let a = &self.assignment;
        Target {
            assignment: RankAssignment {
                recipe: a.recipe.clone(),
                recipe_hash: a.recipe_hash.clone(),
                rank: a.rank,
                world_size: a.world_size,
                node: a.node,
                master_addr: a.master_addr.clone(),
                master_port: a.master_port,
                settings: copy_settings(&a.settings),
            },
            addr: copy_addr(&self.addr),
            name: self.name.clone(),
        }
    }
}

/// Targets that say the same.
pub fn copy_targets(v: &Vec<Target>) -> (r: Vec<Target>)
    ensures
        all_alike(r@, v@),
{
    let mut out: Vec<Target> = Vec::new();
    let mut i: usize = 0;
    while i < v.len()
        invariant
            i <= v.len(),
            out@.len() == i,
            forall|k: int| 0 <= k < i ==> alike(#[trigger] out@[k], v@[k]),
        decreases v.len() - i,
    {
        out.push(v[i].copy());
        i += 1;
    }
    out
}

/// A cluster that started, kept so that it can be stopped again. The
/// containers are those that the machines named when they started them.
#[derive(Debug)]
pub struct Running {
    pub targets: Vec<Target>,
    pub started: Vec<RankStarted>,
}

impl Running {
    /// Every rank that was started is on one of the targets.
    pub open spec fn whole(self) -> bool {
        forall|k: int|
            0 <= k < self.started@.len() ==> target_of(
                self.targets@,
                (#[trigger] self.started@[k]).node,
                self.targets@.len() as int,
            ) is Some
    }
}

/// Something to do with a container on a machine.
#[derive(Debug, Clone, PartialEq, Eq)]
pub struct Order {
    pub node: NodeId,
    /// Where the machine is; none where it is this one.
    pub addr: Option<Socket>,
    pub name: String,
    pub container: String,
}

/// A reservation to let go of.
#[derive(Debug, Clone, PartialEq, Eq)]
pub struct Release {
    pub node: NodeId,
    pub addr: Option<Socket>,
}

/// The target, among the first `n`, that is a machine.
pub open spec fn target_of(targets: Seq<Target>, node: NodeId, n: int) -> Option<int>
    decreases n,
{
    if n <= 0 {
        None
    } else {
        match target_of(targets, node, n - 1) {
            Some(i) => Some(i),
            None => if targets[n - 1].assignment.node == node {
                Some(n - 1)
            } else {
                None
            },
        }
    }
}

proof fn lemma_target_of(targets: Seq<Target>, node: NodeId, i: int, n: int)
    requires
        0 <= i <= n <= targets.len(),
        target_of(targets, node, i) is Some,
    ensures
        target_of(targets, node, n) == target_of(targets, node, i),
    decreases n,
{
    if i < n {
        lemma_target_of(targets, node, i, n - 1);
    }
}

/// A place that was found is in range, and is that machine's.
pub proof fn lemma_target_bounds(targets: Seq<Target>, node: NodeId, n: int)
    requires
        0 <= n <= targets.len(),
    ensures
        target_of(targets, node, n) matches Some(i) ==> 0 <= i < n && targets[i].assignment.node
            == node,
        target_of(targets, node, n) is None ==> forall|i: int|
            0 <= i < n ==> (#[trigger] targets[i]).assignment.node != node,
    decreases n,
{
    if n > 0 {
        lemma_target_bounds(targets, node, n - 1);
    }
}

/// Targets that say the same are found in the same places.
pub proof fn lemma_target_alike(a: Seq<Target>, b: Seq<Target>, node: NodeId, n: int)
    requires
        all_alike(a, b),
        0 <= n <= a.len(),
    ensures
        target_of(a, node, n) == target_of(b, node, n),
    decreases n,
{
    if n > 0 {
        lemma_target_alike(a, b, node, n - 1);
        assert(alike(a[n - 1], b[n - 1]));
    }
}

/// The target, among the first `n`, that is a machine.
pub fn find_target(targets: &Vec<Target>, node: NodeId, n: usize) -> (r: Option<usize>)
    requires
        n <= targets@.len(),
    ensures
        match r {
            Some(i) => i < n && target_of(targets@, node, n as int) == Some(i as int)
                && targets@[i as int].assignment.node == node,
            None => target_of(targets@, node, n as int) is None,
        },
{
    let mut i: usize = 0;
    while i < n
        invariant
            i <= n <= targets@.len(),
            target_of(targets@, node, i as int) is None,
        decreases n - i,
    {
        if targets[i].assignment.node == node {
            proof {
                lemma_target_of(targets@, node, i + 1, n as int);
            }
            return Some(i);
        }
        i += 1;
    }
    None
}

/// What is to be done with a rank's container, at the target that is its
/// machine.
pub open spec fn order_for(t: Target, r: RankStarted) -> Order {
    Order { node: t.assignment.node, addr: t.addr, name: t.name, container: r.container }
}

/// The orders for the first `k` ranks that were started, as far as their
/// machines are among the first `n` targets.
pub open spec fn orders_for(
    started: Seq<RankStarted>,
    targets: Seq<Target>,
    n: int,
    k: int,
) -> Seq<Order>
    decreases k,
{
    if k <= 0 {
        Seq::empty()
    } else {
        match target_of(targets, started[k - 1].node, n) {
            Some(i) => orders_for(started, targets, n, k - 1).push(
                order_for(targets[i], started[k - 1]),
            ),
            None => orders_for(started, targets, n, k - 1),
        }
    }
}

fn make_order(t: &Target, r: &RankStarted) -> (o: Order)
    ensures
        o == order_for(*t, *r),
{
    Order {
        node: t.assignment.node,
        addr: copy_addr(&t.addr),
        name: t.name.clone(),
        container: r.container.clone(),
    }
}

/// The orders for the ranks that were started.
pub fn make_orders(started: &Vec<RankStarted>, targets: &Vec<Target>, n: usize) -> (r: Vec<Order>)
    requires
        n <= targets@.len(),
    ensures
        r@ == orders_for(started@, targets@, n as int, started@.len() as int),
{
    let mut out: Vec<Order> = Vec::new();
    let mut k: usize = 0;
    while k < started.len()
        invariant
            k <= started@.len(),
            n <= targets@.len(),
            out@ == orders_for(started@, targets@, n as int, k as int),
        decreases started@.len() - k,
    {
        match find_target(targets, started[k].node, n) {
            Some(i) => out.push(make_order(&targets[i], &started[k])),
            None => {},
        }
        k += 1;
    }
    out
}

/// The reservation of a target.
pub open spec fn release_of(t: Target) -> Release {
    Release { node: t.assignment.node, addr: t.addr }
}

/// The reservation of a target.
pub fn make_release(t: &Target) -> (r: Release)
    ensures
        r == release_of(*t),
{
    Release { node: t.assignment.node, addr: copy_addr(&t.addr) }
}

/// The reservations of the targets from `from` on.
pub open spec fn releases(targets: Seq<Target>, from: int) -> Seq<Release> {
    Seq::new((targets.len() - from) as nat, |i: int| release_of(targets[from + i]))
}

/// The reservations of the targets from `from` on.
pub fn make_releases(targets: &Vec<Target>, from: usize) -> (r: Vec<Release>)
    requires
        from <= targets@.len(),
    ensures
        r@ == releases(targets@, from as int),
{
    let mut out: Vec<Release> = Vec::new();
    let mut i: usize = from;
    while i < targets.len()
        invariant
            from <= i <= targets@.len(),
            out@.len() == i - from,
            forall|k: int| 0 <= k < i - from ==> #[trigger] out@[k] == release_of(targets@[from + k]),
        decreases targets@.len() - i,
    {
        out.push(make_release(&targets[i]));
        i += 1;
    }
    assert(out@ =~= releases(targets@, from as int));
    out
}

/// Plans a cluster and drives it across the fleet.
#[derive(Debug)]
pub struct ClusterDriver {
    /// The port that machines are dialled on.
    pub peer_port: u16,
    /// How long a cluster settles, in milliseconds.
    pub settle: u64,
    pub pending: Option<Pending>,
    pub running: Option<Running>,
}

impl ClusterDriver {
    /// What is recorded as running is whole.
    pub open spec fn sound(self) -> bool {
        self.running matches Some(running) ==> running.whole()
    }

    /// A driver that has started nothing.
    pub fn new(peer_port: u16) -> (r: Self)
        ensures
            r.peer_port == peer_port,
            r.settle == SETTLE,
            r.settle == 5_000,
            r.pending is None,
            r.running is None,
            r.sound(),
    {
        ClusterDriver { peer_port, settle: SETTLE, pending: None, running: None }
    }

    /// The same, with another settling window.
    pub fn with_settle(self, settle: u64) -> (r: Self)
        ensures
            r == (ClusterDriver { settle, ..self }),
    {
        ClusterDriver { settle, ..self }
    }
}

/// What a setting is set to, among the first `n`.
pub open spec fn setting_at(
    settings: Seq<(String, SettingValue)>,
    key: Seq<char>,
    n: int,
) -> Option<SettingValue>
    decreases n,
{
    if n <= 0 {
        None
    } else {
        match setting_at(settings, key, n - 1) {
            Some(v) => Some(v),
            None => if settings[n - 1].0@ == key {
                Some(settings[n - 1].1)
            } else {
                None
            },
        }
    }
}

} // verus!
