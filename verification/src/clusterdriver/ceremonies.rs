//! The cluster ceremonies: preview, prepare, commit, abort, stop, supervise.
use crate::cluster::PrepareReply;
use crate::clusterdriver::plan::Request;
use crate::clusterdriver::{
    all_alike, copy_started, copy_targets, find_target, lemma_target_alike, lemma_target_bounds,
    make_orders, make_release, make_releases, order_for, orders_for, release_of, releases, target_of,
    ClusterDriver, Order, Pending, RankStarted, Release, Running, Target,
};
use crate::fleet::NodeDescriptor;
use crate::node::NodeId;
use crate::text;
use vstd::prelude::*;

verus! {

// ---------------------------------------------------------------------------
// Preview
// ---------------------------------------------------------------------------

/// What one machine would run.
#[derive(Debug, Clone, PartialEq, Eq)]
pub struct RankPreview {
    pub node: NodeId,
    pub name: String,
    pub rank: u32,
    pub master_addr: String,
    pub command: String,
    pub unmapped: Vec<String>,
}

/// A preview under way: every rank is asked what it would run. A preview
/// reserves nothing.
#[derive(Debug)]
pub struct Preview {
    pub pending: Pending,
    pub out: Vec<RankPreview>,
}

impl Preview {
    /// The rank to ask next, if any is left.
    pub fn asking(&self) -> (r: Option<usize>)
        ensures
            r == (if self.out@.len() < self.pending.targets@.len() {
                Some(self.out.len())
            } else {
                None
            }),
    {
        if self.out.len() < self.pending.targets.len() {
            Some(self.out.len())
        } else {
            None
        }
    }

    /// Take what a rank rendered. A rank that cannot render ends the preview,
    /// and is named.
    pub fn answer(&mut self, reply: Result<(String, Vec<String>), String>) -> (r: Result<
        (),
        String,
    >)
        requires
            old(self).out@.len() < old(self).pending.targets@.len(),
        ensures
            final(self).pending == old(self).pending,
            ({
                let t = old(self).pending.targets@[old(self).out@.len() as int];
                match reply {
                    Ok((command, unmapped)) => r is Ok && final(self).out@ == old(self).out@.push(
                        RankPreview {
                            node: t.assignment.node,
                            name: t.name,
                            rank: t.assignment.rank,
                            master_addr: t.assignment.master_addr,
                            command,
                            unmapped,
                        },
                    ),
                    Err(e) => final(self).out@ == old(self).out@ && (r matches Err(why) && why@
                        == t.name@ + ": "@ + e@),
                }
            }),
    {
        let i = self.out.len();
        match reply {
            Ok((command, unmapped)) => {
                let t = &self.pending.targets[i];
                let line = RankPreview {
                    node: t.assignment.node,
                    name: t.name.clone(),
                    rank: t.assignment.rank,
                    master_addr: t.assignment.master_addr.clone(),
                    command,
                    unmapped,
                };
                self.out.push(line);
                Ok(())
            },
            Err(e) => Err(text::cat3(&self.pending.targets[i].name, ": ", &e)),
        }
    }
}

// ---------------------------------------------------------------------------
// Prepare
// ---------------------------------------------------------------------------

/// What one machine answered to a prepare.
#[derive(Debug, Clone, PartialEq, Eq)]
pub struct RankPrepare {
    pub node: NodeId,
    pub name: String,
    pub rank: u32,
    pub prepared: bool,
    pub reason: String,
}

/// What an answer comes to.
pub open spec fn is_prepare(t: Target, reply: PrepareReply, a: RankPrepare) -> bool {
    &&& a.node == t.assignment.node
    &&& a.name == t.name
    &&& a.rank == t.assignment.rank
    &&& a.prepared == (reply is Prepared)
    &&& a.reason@ == (match reply {
        PrepareReply::Prepared => Seq::empty(),
        PrepareReply::Refused { reason } => reason@,
    })
}

/// A prepare under way: every rank is asked to reserve, also after one has
/// refused.
#[derive(Debug)]
pub struct Prepare {
    pub pending: Pending,
    pub answers: Vec<RankPrepare>,
}

/// Every answer is a yes.
pub open spec fn all_prepared(answers: Seq<RankPrepare>) -> bool {
    forall|i: int| 0 <= i < answers.len() ==> (#[trigger] answers[i]).prepared
}

/// The reservations among the first `n` targets that were taken.
pub open spec fn taken(targets: Seq<Target>, answers: Seq<RankPrepare>, n: int) -> Seq<Release>
    decreases n,
{
    if n <= 0 {
        Seq::empty()
    } else if answers[n - 1].prepared {
        taken(targets, answers, n - 1).push(release_of(targets[n - 1]))
    } else {
        taken(targets, answers, n - 1)
    }
}

/// How a prepare ended.
#[derive(Debug)]
pub struct PrepareDone {
    pub epoch: String,
    pub answers: Vec<RankPrepare>,
    pub may_commit: bool,
    /// The reservations to let go of, because the launch will not go ahead.
    pub release: Vec<Release>,
}

impl Prepare {
    /// The rank to ask next, if any is left.
    pub fn asking(&self) -> (r: Option<usize>)
        ensures
            r == (if self.answers@.len() < self.pending.targets@.len() {
                Some(self.answers.len())
            } else {
                None
            }),
    {
        if self.answers.len() < self.pending.targets.len() {
            Some(self.answers.len())
        } else {
            None
        }
    }

    /// Take what a rank answered.
    pub fn answer(&mut self, reply: PrepareReply)
        requires
            old(self).answers@.len() < old(self).pending.targets@.len(),
        ensures
            final(self).pending == old(self).pending,
            final(self).answers@.len() == old(self).answers@.len() + 1,
            final(self).answers@.drop_last() == old(self).answers@,
            is_prepare(
                old(self).pending.targets@[old(self).answers@.len() as int],
                reply,
                final(self).answers@.last(),
            ),
    {
        let t = &self.pending.targets[self.answers.len()];
        let (prepared, reason) = match reply {
            PrepareReply::Prepared => (true, String::new()),
            PrepareReply::Refused { reason } => (false, reason),
        };
        let line = RankPrepare {
            node: t.assignment.node,
            name: t.name.clone(),
            rank: t.assignment.rank,
            prepared,
            reason,
        };
        let ghost was = self.answers@;
        self.answers.push(line);
        assert(self.answers@.drop_last() =~= was);
    }
}

/// The names of ranks.
pub open spec fn rank_names(started: Seq<RankStarted>) -> Seq<Seq<char>> {
    started.map_values(|r: RankStarted| r.name@)
}

fn names_of(started: &Vec<RankStarted>) -> (r: Vec<String>)
    ensures
        text::views(r@) == rank_names(started@),
{
    let mut out: Vec<String> = Vec::new();
    let mut i: usize = 0;
    while i < started.len()
        invariant
            i <= started@.len(),
            out@.len() == i,
            forall|k: int| 0 <= k < i ==> (#[trigger] out@[k])@ == started@[k].name@,
        decreases started@.len() - i,
    {
        out.push(started[i].name.clone());
        i += 1;
    }
    assert(text::views(out@) =~= rank_names(started@));
    out
}

impl ClusterDriver {
    /// What asking to prepare comes to. A second cluster is refused while one
    /// runs, before any machine is touched.
    pub open spec fn prepares<F>(
        &self,
        fleet: Seq<NodeDescriptor<F>>,
        dialable: Seq<bool>,
        req: Request,
        epoch: Seq<char>,
        r: Result<Prepare, String>,
    ) -> bool {
        match self.running {
            Some(running) => r matches Err(why) && why@ == "a cluster is already running on "@
                + text::joined(rank_names(running.started@), ", "@)
                + "; stop it before starting another"@,
            None => match r {
                Ok(p) => p.answers@.len() == 0 && self.resolves(
                    fleet,
                    dialable,
                    req,
                    epoch,
                    Ok::<Pending, String>(p.pending),
                ),
                Err(why) => self.resolves(
                    fleet,
                    dialable,
                    req,
                    epoch,
                    Err::<Pending, String>(why),
                ),
            },
        }
    }

    /// Begin to prepare a launch. `epoch` is a name that no other attempt
    /// has.
    pub fn begin_prepare<F>(
        &self,
        fleet: &Vec<NodeDescriptor<F>>,
        dialable: &Vec<bool>,
        req: &Request,
        epoch: &str,
    ) -> (r: Result<Prepare, String>)
        ensures
            self.prepares(fleet@, dialable@, *req, epoch@, r),
    {
        match &self.running {
            Some(running) => {
                let names = names_of(&running.started);
                let all = text::join(&names, ", ");
                return Err(
                    text::cat3(
                        "a cluster is already running on ",
                        &all,
                        "; stop it before starting another",
                    ),
                );
            },
            None => {},
        }
        match self.resolve(fleet, dialable, req, epoch) {
            Ok(pending) => Ok(Prepare { pending, answers: Vec::new() }),
            Err(why) => Err(why),
        }
    }

    /// End a prepare that every rank has answered. Where all said yes the
    /// launch waits to be committed; where one did not, every reservation
    /// already taken is to be released.
    pub fn end_prepare(&mut self, p: Prepare) -> (r: PrepareDone)
        requires
            p.answers@.len() == p.pending.targets@.len(),
        ensures
            r.epoch == p.pending.epoch,
            r.answers == p.answers,
            r.may_commit == all_prepared(p.answers@),
            r.release@ == (if r.may_commit {
                Seq::empty()
            } else {
                taken(p.pending.targets@, p.answers@, p.answers@.len() as int)
            }),
            *final(self) == (ClusterDriver {
                pending: if r.may_commit {
                    Some(p.pending)
                } else {
                    old(self).pending
                },
                ..*old(self)
            }),
    {
        let n = p.answers.len();
        let mut release: Vec<Release> = Vec::new();
        let mut may_commit = true;
        let mut i: usize = 0;
        while i < n
            invariant
                i <= n,
                n == p.answers@.len(),
                n == p.pending.targets@.len(),
                may_commit == all_prepared(p.answers@.subrange(0, i as int)),
                release@ == taken(p.pending.targets@, p.answers@, i as int),
            decreases n - i,
        {
            let ghost short = p.answers@.subrange(0, i as int);
            let ghost long = p.answers@.subrange(0, i + 1);
            assert(long =~= short.push(p.answers@[i as int]));
            proof {
                if all_prepared(long) {
                    assert forall|k: int| 0 <= k < short.len() implies (
                    #[trigger] short[k]).prepared by {
                        assert(long[k].prepared);
                    }
                    assert(long[i as int].prepared);
                }
            }
            if p.answers[i].prepared {
                release.push(make_release(&p.pending.targets[i]));
            } else {
                may_commit = false;
                assert(!long[i as int].prepared);
            }
            i += 1;
        }
        assert(p.answers@.subrange(0, n as int) =~= p.answers@);
        let epoch = p.pending.epoch.clone();
        let answers = p.answers;
        if may_commit {
            self.pending = Some(p.pending);
            PrepareDone { epoch, answers, may_commit, release: Vec::new() }
        } else {
            PrepareDone { epoch, answers, may_commit, release }
        }
    }
}

// ---------------------------------------------------------------------------
// Commit
// ---------------------------------------------------------------------------

/// A commit under way: every rank is started, the cluster settles, and every
/// rank is asked whether it survived.
#[derive(Debug)]
pub struct Commit {
    pub pending: Pending,
    /// How long the cluster settles, in milliseconds.
    pub settle: u64,
    pub started: Vec<RankStarted>,
    pub settled: bool,
    /// How many targets have been looked after.
    pub checked: usize,
    /// The names of the machines whose rank is gone.
    pub dead: Vec<String>,
    /// What the machine that could not start its rank said.
    pub failed: Option<String>,
}

/// What a commit does next.
#[derive(Debug, PartialEq, Eq)]
pub enum CommitStep {
    /// Start the rank of this target.
    Start { target: usize },
    /// Wait, in milliseconds.
    Settle { ms: u64 },
    /// Ask whether this container is alive. A machine that cannot be asked is
    /// one that cannot be counted.
    Check { target: usize, order: Order },
    /// Give up: stop these, release those, and say why.
    Undo { stop: Vec<Order>, release: Vec<Release>, why: String },
    /// Every rank is up.
    Up,
}

/// The rank, among the first `n`, that a machine started.
pub open spec fn started_by(started: Seq<RankStarted>, node: NodeId, n: int) -> Option<int>
    decreases n,
{
    if n <= 0 {
        None
    } else {
        match started_by(started, node, n - 1) {
            Some(i) => Some(i),
            None => if started[n - 1].node == node {
                Some(n - 1)
            } else {
                None
            },
        }
    }
}

proof fn lemma_started_by(started: Seq<RankStarted>, node: NodeId, i: int, n: int)
    requires
        0 <= i <= n <= started.len(),
        started_by(started, node, i) is Some,
    ensures
        started_by(started, node, n) == started_by(started, node, i),
    decreases n,
{
    if i < n {
        lemma_started_by(started, node, i, n - 1);
    }
}

fn find_started(started: &Vec<RankStarted>, node: NodeId) -> (r: Option<usize>)
    ensures
        match r {
            Some(i) => i < started@.len() && started_by(started@, node, started@.len() as int)
                == Some(i as int),
            None => started_by(started@, node, started@.len() as int) is None,
        },
{
    let mut i: usize = 0;
    while i < started.len()
        invariant
            i <= started@.len(),
            started_by(started@, node, i as int) is None,
        decreases started@.len() - i,
    {
        if started[i].node == node {
            proof {
                lemma_started_by(started@, node, i + 1, started@.len() as int);
            }
            return Some(i);
        }
        i += 1;
    }
    None
}

/// The next target, from `i` on, whose machine started a rank.
pub open spec fn next_check(targets: Seq<Target>, started: Seq<RankStarted>, i: int) -> int
    decreases targets.len() - i,
{
    if i < 0 || i >= targets.len() {
        targets.len() as int
    } else if started_by(started, targets[i].assignment.node, started.len() as int) is Some {
        i
    } else {
        next_check(targets, started, i + 1)
    }
}

/// The seconds named in a report: at least one.
pub open spec fn seconds(ms: u64) -> nat {
    if ms / 1000 > 1 {
        (ms / 1000) as nat
    } else {
        1
    }
}

impl Commit {
    /// The ranks that were started are those of the first targets.
    pub open spec fn aligned(self) -> bool {
        &&& self.started@.len() <= self.pending.targets@.len()
        &&& forall|j: int|
            0 <= j < self.started@.len() ==> (#[trigger] self.started@[j]).node
                == self.pending.targets@[j].assignment.node
    }

    /// Where the looking after goes on.
    pub open spec fn looking_at(self) -> int {
        next_check(self.pending.targets@, self.started@, self.checked as int)
    }

    /// What is due.
    pub open spec fn is_due(self, step: CommitStep) -> bool {
        let targets = self.pending.targets@;
        let n = targets.len() as int;
        let k = self.started@.len() as int;
        if self.failed is Some && k < n {
            step matches CommitStep::Undo { stop, release, why } && stop@ == orders_for(
                self.started@,
                targets,
                k,
                k,
            ) && release@ == releases(targets, k) && why@ == targets[k].name@
                + " could not start: "@ + self.failed.unwrap()@
        } else if k < n {
            step == CommitStep::Start { target: k as usize }
        } else if !self.settled && self.settle > 0 {
            step == CommitStep::Settle { ms: self.settle }
        } else if self.looking_at() < n {
            let i = self.looking_at();
            let r = self.started@[started_by(self.started@, targets[i].assignment.node, k).unwrap()];
            step == CommitStep::Check { target: i as usize, order: order_for(targets[i], r) }
        } else if self.dead@.len() > 0 {
            step matches CommitStep::Undo { stop, release, why } && stop@ == orders_for(
                self.started@,
                targets,
                n,
                k,
            ) && release@ == Seq::<Release>::empty() && why@ == text::joined(
                text::views(self.dead@),
                " and "@,
            ) + " stopped within "@ + text::dec(seconds(self.settle))
                + "s of starting. The whole cluster has been shut down; check that machine's container logs."@
        } else {
            step == CommitStep::Up
        }
    }

    /// What is due.
    pub fn due(&self) -> (step: CommitStep)
        ensures
            self.is_due(step),
    {
        let n = self.pending.targets.len();
        let k = self.started.len();
        match &self.failed {
            Some(reason) => if k < n {
                let stop = make_orders(&self.started, &self.pending.targets, k);
                let release = make_releases(&self.pending.targets, k);
                let why = text::cat3(&self.pending.targets[k].name, " could not start: ", reason);
                return CommitStep::Undo { stop, release, why };
            },
            None => {},
        }
        if k < n {
            return CommitStep::Start { target: k };
        }
        if !self.settled && self.settle > 0 {
            return CommitStep::Settle { ms: self.settle };
        }
        let mut i: usize = self.checked;
        while i < n
            invariant
                n == self.pending.targets@.len(),
                k == self.started@.len(),
                k >= n,
                self.settled || self.settle == 0,
                self.looking_at() == next_check(
                    self.pending.targets@,
                    self.started@,
                    i as int,
                ),
            decreases n - i,
        {
            let t = &self.pending.targets[i];
            match find_started(&self.started, t.assignment.node) {
                Some(j) => {
                    let r = &self.started[j];
                    let order = Order {
                        node: t.assignment.node,
                        addr: crate::clusterdriver::copy_addr(&t.addr),
                        name: t.name.clone(),
                        container: r.container.clone(),
                    };
                    return CommitStep::Check { target: i, order };
                },
                None => {},
            }
            i += 1;
        }
        if self.dead.len() > 0 {
            let stop = make_orders(&self.started, &self.pending.targets, n);
            let mut why = text::join(&self.dead, " and ");
            why.append(" stopped within ");
            let s: u64 = if self.settle / 1000 > 1 {
                self.settle / 1000
            } else {
                1
            };
            let digits = text::decimal(s);
            why.append(&digits);
            why.append(
                "s of starting. The whole cluster has been shut down; check that machine's container logs.",
            );
            return CommitStep::Undo { stop, release: Vec::new(), why };
        }
        CommitStep::Up
    }

    /// A rank whose target said that it started. Rank zero alone serves, so
    /// it alone has an endpoint.
    pub open spec fn is_started(self, container: String, r: RankStarted) -> bool {
        let t = self.pending.targets@[self.started@.len() as int];
        &&& r.node == t.assignment.node
        &&& r.name == t.name
        &&& r.rank == t.assignment.rank
        &&& r.container == container
        &&& match r.endpoint {
            Some(e) => t.assignment.rank == 0 && e@ == "http://"@ + t.assignment.master_addr@
                + ":"@ + text::dec(self.pending.port as nat),
            None => t.assignment.rank != 0,
        }
    }

    /// Take what a machine answered when it was told to start its rank.
    pub fn start_answered(&mut self, answer: Result<String, String>)
        requires
            old(self).started@.len() < old(self).pending.targets@.len(),
        ensures
            match answer {
                Ok(container) => {
                    &&& *final(self) == (Commit { started: final(self).started, ..*old(self) })
                    &&& final(self).started@.len() == old(self).started@.len() + 1
                    &&& final(self).started@.drop_last() == old(self).started@
                    &&& old(self).is_started(container, final(self).started@.last())
                },
                Err(why) => *final(self) == (Commit { failed: Some(why), ..*old(self) }),
            },
            old(self).aligned() ==> final(self).aligned(),
    {
        match answer {
            Ok(container) => {
                let t = &self.pending.targets[self.started.len()];
                let endpoint = if t.assignment.rank == 0 {
                    let digits = text::decimal(self.pending.port as u64);
                    let mut e = text::cat3("http://", &t.assignment.master_addr, ":");
                    e.append(&digits);
                    Some(e)
                } else {
                    None
                };
                let r = RankStarted {
                    node: t.assignment.node,
                    name: t.name.clone(),
                    rank: t.assignment.rank,
                    container,
                    endpoint,
                };
                let ghost was = self.started@;
                self.started.push(r);
                assert(self.started@.drop_last() =~= was);
                assert forall|j: int|
                    old(self).aligned() && 0 <= j < self.started@.len() implies (
                #[trigger] self.started@[j]).node
                    == self.pending.targets@[j].assignment.node by {
                    if j < was.len() {
                        assert(self.started@[j] == was[j]);
                    }
                }
            },
            Err(why) => {
                self.failed = Some(why);
            },
        }
    }

    /// The cluster has settled.
    pub fn has_settled(&mut self)
        ensures
            *final(self) == (Commit { settled: true, ..*old(self) }),
    {
        self.settled = true;
    }

    /// What it makes of a commit that the rank of a target answered, or did
    /// not.
    pub open spec fn looked(self, target: int, alive: bool, next: Commit) -> bool {
        &&& target == self.looking_at()
        &&& target < self.pending.targets@.len()
        &&& next == (Commit { checked: (target + 1) as usize, dead: next.dead, ..self })
        &&& next.dead@ == (if alive {
            self.dead@
        } else {
            self.dead@.push(self.pending.targets@[target].name)
        })
    }

    /// Take whether the rank of the target that was to be asked is alive. A
    /// rank that cannot be asked is not.
    pub fn alive_answered(&mut self, target: usize, alive: bool)
        requires
            target == old(self).looking_at(),
            target < old(self).pending.targets@.len(),
        ensures
            old(self).looked(target as int, alive, *final(self)),
    {
        if !alive {
            let name = self.pending.targets[target].name.clone();
            self.dead.push(name);
        }
        assert(self.pending.targets@.len() == self.pending.targets.len());
        self.checked = target + 1;
    }
}

impl ClusterDriver {
    /// What asking to commit comes to. A commit consumes its prepare.
    pub open spec fn commits(&self, epoch: Seq<char>, r: Result<Commit, String>) -> bool {
        match self.pending {
            None => r matches Err(why) && why@ == "no prepare is outstanding for "@ + epoch,
            Some(p) => if p.epoch@ == epoch {
                r matches Ok(c) && c.pending == p && c.settle == self.settle && c.started@.len()
                    == 0 && !c.settled && c.checked == 0 && c.dead@.len() == 0 && c.failed is None
            } else {
                r matches Err(why) && why@ == "this agent is holding a prepare for "@ + p.epoch@
                    + ", not "@ + epoch
            },
        }
    }

    /// Begin to commit the prepare of an epoch.
    pub fn begin_commit(&mut self, epoch: &str) -> (r: Result<Commit, String>)
        ensures
            old(self).commits(epoch@, r),
            r matches Ok(c) ==> c.aligned(),
            *final(self) == (ClusterDriver {
                pending: if r is Ok {
                    None
                } else {
                    old(self).pending
                },
                ..*old(self)
            }),
    {
        match self.pending.take() {
            None => Err(text::cat2("no prepare is outstanding for ", epoch)),
            Some(p) => if text::same(&p.epoch, epoch) {
                Ok(
                    Commit {
                        pending: p,
                        settle: self.settle,
                        started: Vec::new(),
                        settled: false,
                        checked: 0,
                        dead: Vec::new(),
                        failed: None,
                    },
                )
            } else {
                let mut why = text::cat3(
                    "this agent is holding a prepare for ",
                    &p.epoch,
                    ", not ",
                );
                why.append(epoch);
                self.pending = Some(p);
                Err(why)
            },
        }
    }

    /// Record a cluster whose every rank is up, and hand its ranks back.
    pub fn end_commit(&mut self, c: Commit) -> (r: Vec<RankStarted>)
        requires
            c.is_due(CommitStep::Up),
        ensures
            r@ == c.started@,
            *final(self) == (ClusterDriver { running: final(self).running, ..*old(self) }),
            final(self).running matches Some(running) && running.targets == c.pending.targets
                && running.started == c.started,
            c.aligned() ==> final(self).sound(),
    {
        proof {
            if c.aligned() {
                let t = c.pending.targets@;
                assert forall|k: int| 0 <= k < c.started@.len() implies target_of(
                    t,
                    (#[trigger] c.started@[k]).node,
                    t.len() as int,
                ) is Some by {
                    lemma_target_bounds(t, c.started@[k].node, t.len() as int);
                    assert(t[k].assignment.node == c.started@[k].node);
                }
            }
        }
        let out = copy_started(&c.started);
        self.running = Some(Running { targets: c.pending.targets, started: c.started });
        out
    }

    /// Let go of a prepare; what is to be released. Only the named one: an
    /// abort of an earlier attempt that arrives late must not release a
    /// prepare made since.
    pub fn abort(&mut self, epoch: &str) -> (r: Vec<Release>)
        ensures
            match old(self).pending {
                Some(p) => if p.epoch@ == epoch@ {
                    *final(self) == (ClusterDriver { pending: None, ..*old(self) }) && r@
                        == releases(p.targets@, 0)
                } else {
                    *final(self) == *old(self) && r@ == Seq::<Release>::empty()
                },
                None => *final(self) == *old(self) && r@ == Seq::<Release>::empty(),
            },
    {
        match self.pending.take() {
            Some(p) => if text::same(&p.epoch, epoch) {
                make_releases(&p.targets, 0)
            } else {
                self.pending = Some(p);
                Vec::new()
            },
            None => Vec::new(),
        }
    }
}

// ---------------------------------------------------------------------------
// Stop
// ---------------------------------------------------------------------------

/// A stop under way, of what was running when it began.
#[derive(Debug)]
pub struct Stop {
    pub targets: Vec<Target>,
    pub started: Vec<RankStarted>,
    /// How many ranks have been attempted.
    pub tried: usize,
    pub failures: Vec<String>,
    /// The ranks that could not be stopped.
    pub still: Vec<RankStarted>,
}

/// The next rank, from `k` on, whose machine is a target.
pub open spec fn next_stop(started: Seq<RankStarted>, targets: Seq<Target>, k: int) -> int
    decreases started.len() - k,
{
    if k < 0 || k >= started.len() {
        started.len() as int
    } else if target_of(targets, started[k].node, targets.len() as int) is Some {
        k
    } else {
        next_stop(started, targets, k + 1)
    }
}

impl Stop {
    /// Where a rank's machine is among the targets.
    pub open spec fn target_at(self, k: int) -> Option<int> {
        target_of(self.targets@, self.started@[k].node, self.targets@.len() as int)
    }

    /// What is said of a rank that could not be stopped: its machine, and why.
    pub open spec fn complaint(self, k: int, why: Seq<char>) -> Seq<char> {
        self.targets@[self.target_at(k).unwrap()].name@ + ": "@ + why
    }

    /// The rank to stop next.
    pub open spec fn stopping(self) -> int {
        next_stop(self.started@, self.targets@, self.tried as int)
    }

    /// The next container to stop. Every rank is attempted, also after one
    /// failed: a rank left running holds a whole accelerator.
    pub fn due(&self) -> (r: Option<(usize, Order)>)
        ensures
            match r {
                Some((k, order)) => {
                    &&& k == self.stopping()
                    &&& k < self.started@.len()
                    &&& self.target_at(k as int) matches Some(i) && order == order_for(
                        self.targets@[i],
                        self.started@[k as int],
                    )
                },
                None => self.stopping() >= self.started@.len(),
            },
    {
        let mut k: usize = self.tried;
        while k < self.started.len()
            invariant
                self.stopping() == next_stop(self.started@, self.targets@, k as int),
            decreases self.started@.len() - k,
        {
            match find_target(&self.targets, self.started[k].node, self.targets.len()) {
                Some(i) => {
                    let t = &self.targets[i];
                    let order = Order {
                        node: t.assignment.node,
                        addr: crate::clusterdriver::copy_addr(&t.addr),
                        name: t.name.clone(),
                        container: self.started[k].container.clone(),
                    };
                    return Some((k, order));
                },
                None => {},
            }
            k += 1;
        }
        None
    }

    /// What it makes of a stop that a rank was stopped, or could not be.
    pub open spec fn attempted(self, k: int, outcome: Result<(), String>, next: Stop) -> bool {
        &&& k == self.stopping()
        &&& k < self.started@.len()
        &&& next == (Stop {
            tried: (k + 1) as usize,
            failures: next.failures,
            still: next.still,
            ..self
        })
        &&& match outcome {
            Ok(_) => next.failures@ == self.failures@ && next.still@ == self.still@,
            Err(e) => {
                &&& text::views(next.failures@) == text::views(self.failures@).push(
                    self.complaint(k, e@),
                )
                &&& next.still@ == self.still@.push(self.started@[k])
            },
        }
    }

    /// Take what came of stopping the rank that was to be stopped next. One
    /// that could not be stopped is named by its machine.
    pub fn answered(&mut self, k: usize, outcome: Result<(), String>)
        requires
            k == old(self).stopping(),
            k < old(self).started@.len(),
        ensures
            old(self).attempted(k as int, outcome, *final(self)),
    {
        match outcome {
            Ok(_) => {},
            Err(e) => {
                proof {
                    lemma_next_stop(self.started@, self.targets@, self.tried as int);
                }
                if let Some(i) = find_target(
                    &self.targets,
                    self.started[k].node,
                    self.targets.len(),
                ) {
                    let line = text::cat3(&self.targets[i].name, ": ", &e);
                    let ghost was = self.failures@;
                    self.failures.push(line);
                    assert(text::views(self.failures@) =~= text::views(was).push(line@));
                    let r = self.started[k].copy();
                    self.still.push(r);
                }
            },
        }
        assert(self.started@.len() == self.started.len());
        self.tried = k + 1;
    }
}

impl ClusterDriver {
    /// What asking to stop comes to.
    pub open spec fn stops(&self, r: Result<Stop, String>) -> bool {
        match self.running {
            None => r matches Err(why) && why@ == "this agent did not start a cluster"@,
            Some(running) => r matches Ok(s) && all_alike(s.targets@, running.targets@)
                && s.started@ == running.started@ && s.tried == 0 && s.failures@.len() == 0
                && s.still@.len() == 0,
        }
    }

    /// What a stop that has attempted every rank leaves, and is answered with.
    pub open spec fn stopped(
        &self,
        s: Stop,
        next: ClusterDriver,
        r: Result<Vec<RankStarted>, String>,
    ) -> bool {
        &&& next == (ClusterDriver { running: next.running, ..*self })
        &&& if s.failures@.len() == 0 {
            next.running is None && (r matches Ok(v) && v@ == s.started@)
        } else {
            &&& next.running matches Some(left) && left.started@ == s.still@ && left.targets@
                == s.targets@
            &&& r matches Err(why) && why@ == "could not stop "@ + text::joined(
                text::views(s.failures@),
                "; "@,
            )
        }
    }

    /// Begin to stop the cluster that this agent started. The record of it is
    /// read and not taken, so that a stop that fails can be tried again.
    pub fn begin_stop(&self) -> (r: Result<Stop, String>)
        ensures
            self.stops(r),
    {
        match &self.running {
            None => Err(text::copy("this agent did not start a cluster")),
            Some(running) => Ok(
                Stop {
                    targets: copy_targets(&running.targets),
                    started: copy_started(&running.started),
                    tried: 0,
                    failures: Vec::new(),
                    still: Vec::new(),
                },
            ),
        }
    }

    /// End a stop that has attempted every rank. Where none failed the record
    /// goes; where some did it keeps exactly those, so that another try goes
    /// to them and to no rank already stopped.
    pub fn end_stop(&mut self, s: Stop) -> (r: Result<Vec<RankStarted>, String>)
        requires
            s.stopping() >= s.started@.len(),
        ensures
            old(self).stopped(s, *final(self), r),
    {
        if s.failures.len() == 0 {
            self.running = None;
            Ok(s.started)
        } else {
            let all = text::join(&s.failures, "; ");
            self.running = Some(Running { targets: s.targets, started: s.still });
            Err(text::cat2("could not stop ", &all))
        }
    }
}

// ---------------------------------------------------------------------------
// Supervise
// ---------------------------------------------------------------------------

/// What supervision found, when it found something: the machines as well as
/// the sentence, so that it can be raised where an operator sees it.
#[derive(Debug, Clone, PartialEq, Eq)]
pub struct Torn {
    /// The machines that stopped answering.
    pub nodes: Vec<NodeId>,
    /// One sentence.
    pub why: String,
}

/// The machines of the first `n` orders that are not alive.
pub open spec fn gone(orders: Seq<Order>, alive: Seq<bool>, n: int) -> Seq<(NodeId, Seq<char>)>
    decreases n,
{
    if n <= 0 {
        Seq::empty()
    } else if alive[n - 1] {
        gone(orders, alive, n - 1)
    } else {
        gone(orders, alive, n - 1).push((orders[n - 1].node, orders[n - 1].name@))
    }
}

/// The names of machines.
pub open spec fn gone_names(v: Seq<(NodeId, Seq<char>)>) -> Seq<Seq<char>> {
    v.map_values(|p: (NodeId, Seq<char>)| p.1)
}

/// The identities of machines.
pub open spec fn gone_nodes(v: Seq<(NodeId, Seq<char>)>) -> Seq<NodeId> {
    v.map_values(|p: (NodeId, Seq<char>)| p.0)
}

/// What the answers of a roster come to: nothing where every rank is alive.
pub fn verdict(orders: &Vec<Order>, alive: &Vec<bool>) -> (r: Option<Torn>)
    requires
        orders@.len() == alive@.len(),
    ensures
        ({
            let dead = gone(orders@, alive@, orders@.len() as int);
            match r {
                None => dead.len() == 0,
                Some(torn) => dead.len() > 0 && torn.nodes@ == gone_nodes(dead) && torn.why@
                    == text::joined(gone_names(dead), " and "@)
                    + " stopped, so the cluster was torn down. A half cluster waits at a rendezvous that will never complete while its survivors hold their GPUs."@,
            }
        }),
{
    let mut nodes: Vec<NodeId> = Vec::new();
    let mut names: Vec<String> = Vec::new();
    let mut i: usize = 0;
    assert(gone_nodes(gone(orders@, alive@, 0)) =~= nodes@);
    assert(gone_names(gone(orders@, alive@, 0)) =~= text::views(names@));
    while i < orders.len()
        invariant
            i <= orders@.len(),
            orders@.len() == alive@.len(),
            nodes@ == gone_nodes(gone(orders@, alive@, i as int)),
            text::views(names@) == gone_names(gone(orders@, alive@, i as int)),
            nodes@.len() == names@.len(),
        decreases orders@.len() - i,
    {
        let ghost dead = gone(orders@, alive@, i as int);
        if !alive[i] {
            let ghost was = names@;
            nodes.push(orders[i].node);
            names.push(orders[i].name.clone());
            let ghost more = dead.push((orders@[i as int].node, orders@[i as int].name@));
            assert(gone(orders@, alive@, i + 1) == more);
            assert(nodes@ =~= gone_nodes(more));
            assert(text::views(names@) =~= text::views(was).push(orders@[i as int].name@));
            assert(text::views(names@) =~= gone_names(more));
        }
        i += 1;
    }
    if nodes.len() == 0 {
        return None;
    }
    let mut why = text::join(&names, " and ");
    why.append(
        " stopped, so the cluster was torn down. A half cluster waits at a rendezvous that will never complete while its survivors hold their GPUs.",
    );
    Some(Torn { nodes, why })
}

impl ClusterDriver {
    /// The ranks to ask whether they are alive: those that were started, at
    /// the targets they are on. None where nothing is running.
    pub fn roster(&self) -> (r: Option<Vec<Order>>)
        ensures
            match self.running {
                None => r is None,
                Some(running) => r matches Some(v) && v@ == orders_for(
                    running.started@,
                    running.targets@,
                    running.targets@.len() as int,
                    running.started@.len() as int,
                ),
            },
    {
        match &self.running {
            None => None,
            Some(running) => Some(
                make_orders(&running.started, &running.targets, running.targets.len()),
            ),
        }
    }

    /// The cluster is over, and was stopped as far as it could be: its record
    /// goes whatever came of that. The rank that is gone cannot be stopped, and
    /// a record kept for it would refuse every later launch.
    pub fn tear_down(&mut self)
        ensures
            *final(self) == (ClusterDriver { running: None, ..*old(self) }),
    {
        self.running = None;
    }
}

// ---------------------------------------------------------------------------
// Laws
// ---------------------------------------------------------------------------

proof fn lemma_orders(started: Seq<RankStarted>, targets: Seq<Target>, n: int, k: int, j: int)
    requires
        0 <= j < k <= started.len(),
        0 <= n <= targets.len(),
        target_of(targets, started[j].node, n) is Some,
    ensures
        exists|x: int|
            0 <= x < orders_for(started, targets, n, k).len() && (#[trigger] orders_for(
                started,
                targets,
                n,
                k,
            )[x]) == order_for(
                targets[target_of(targets, started[j].node, n).unwrap()],
                started[j],
            ),
    decreases k,
{
    let all = orders_for(started, targets, n, k);
    let front = orders_for(started, targets, n, k - 1);
    let o = order_for(targets[target_of(targets, started[j].node, n).unwrap()], started[j]);
    if j == k - 1 {
        assert(all[front.len() as int] == o);
    } else {
        lemma_orders(started, targets, n, k - 1, j);
        let x = choose|x: int| 0 <= x < front.len() && #[trigger] front[x] == o;
        assert(all[x] == o);
    }
}

/// Law: a cluster is whole or absent. When a commit gives up, every rank that
/// was started is stopped at its own machine by its own container, and every
/// machine whose rank was not started is released.
pub proof fn law_a_failed_commit_leaves_nothing_running(c: Commit, step: CommitStep, j: int)
    requires
        c.aligned(),
        c.is_due(step),
        step is Undo,
        0 <= j < c.pending.targets@.len(),
    ensures
        j < c.started@.len() ==> exists|x: int|
            0 <= x < step->stop@.len() && (#[trigger] step->stop@[x]).node
                == c.pending.targets@[j].assignment.node && step->stop@[x].container
                == c.started@[j].container,
        j >= c.started@.len() ==> exists|x: int|
            0 <= x < step->release@.len() && #[trigger] step->release@[x] == release_of(
                c.pending.targets@[j],
            ),
{
    let targets = c.pending.targets@;
    let k = c.started@.len() as int;
    let n = targets.len() as int;
    if j < k {
        let upto = if c.failed is Some && k < n {
            k
        } else {
            n
        };
        crate::clusterdriver::lemma_target_bounds(targets, c.started@[j].node, upto);
        assert(targets[j].assignment.node == c.started@[j].node);
        lemma_orders(c.started@, targets, upto, k, j);
        let t = targets[target_of(targets, c.started@[j].node, upto).unwrap()];
        let all = orders_for(c.started@, targets, upto, k);
        let x = choose|x: int|
            0 <= x < all.len() && #[trigger] all[x] == order_for(t, c.started@[j]);
        assert(step->stop@[x] == order_for(t, c.started@[j]));
    } else {
        assert(step->release@[j - k] == release_of(targets[j]));
    }
}

/// The looking after of a commit: each of its states follows from the one
/// before by the answer about a target, beginning with none.
pub open spec fn looks(cs: Seq<Commit>, targets: Seq<int>, alive: Seq<bool>) -> bool {
    &&& cs.len() == targets.len() + 1
    &&& alive.len() == targets.len()
    &&& cs[0].checked == 0
    &&& cs[0].dead@.len() == 0
    &&& forall|i: int|
        0 <= i < targets.len() ==> cs[i].looked(#[trigger] targets[i], alive[i], cs[i + 1])
}

/// Law: a cluster is reported as up only when every rank of it was started,
/// was asked after the cluster had settled, and answered that it is alive.
pub proof fn law_only_a_whole_cluster_is_up(
    cs: Seq<Commit>,
    targets: Seq<int>,
    alive: Seq<bool>,
    t: int,
)
    requires
        looks(cs, targets, alive),
        cs[0].aligned(),
        cs.last().is_due(CommitStep::Up),
        0 <= t < cs.last().pending.targets@.len(),
    ensures
        cs.last().started@.len() == cs.last().pending.targets@.len(),
        cs.last().dead@.len() == 0,
        cs[0].started == cs.last().started,
        cs[0].settled || cs[0].settle == 0,
        exists|i: int| 0 <= i < targets.len() && #[trigger] targets[i] == t && alive[i],
{
    let n = targets.len() as int;
    let c = cs[n];
    lemma_looked(cs, targets, alive, n);
    lemma_next_check(c.pending.targets@, c.started@, c.checked as int);
    let node = c.pending.targets@[t].assignment.node;
    assert(c.started@[t].node == node);
    lemma_started_found(c.started@, node, t, c.started@.len() as int);
    let i = choose|i: int| 0 <= i < n && #[trigger] targets[i] == t;
    assert(alive[i]);
}

proof fn lemma_started_found(started: Seq<RankStarted>, node: NodeId, i: int, n: int)
    requires
        0 <= i < n <= started.len(),
        started[i].node == node,
    ensures
        started_by(started, node, n) is Some,
    decreases n,
{
    if i < n - 1 {
        lemma_started_found(started, node, i, n - 1);
    }
}

proof fn lemma_looked(cs: Seq<Commit>, targets: Seq<int>, alive: Seq<bool>, n: int)
    requires
        looks(cs, targets, alive),
        0 <= n < cs.len(),
    ensures
        cs[n].pending == cs[0].pending,
        cs[n].started == cs[0].started,
        cs[n].settled == cs[0].settled,
        cs[n].settle == cs[0].settle,
        cs[n].checked <= cs[0].pending.targets@.len(),
        forall|t: int|
            0 <= t < cs[n].checked && started_by(
                cs[0].started@,
                (#[trigger] cs[0].pending.targets@[t]).assignment.node,
                cs[0].started@.len() as int,
            ) is Some ==> exists|i: int| 0 <= i < n && #[trigger] targets[i] == t,
        cs[n].dead@.len() == 0 ==> forall|i: int| 0 <= i < n ==> #[trigger] alive[i],
    decreases n,
{
    if n > 0 {
        lemma_looked(cs, targets, alive, n - 1);
        let a = cs[n - 1];
        let m = targets[n - 1];
        assert(a.looked(targets[n - 1], alive[n - 1], cs[n - 1 + 1]));
        lemma_check_range(a.pending.targets@, a.started@, a.checked as int);
        assert(a.pending.targets@.len() == a.pending.targets.len());
        assert forall|t: int|
            0 <= t < cs[n].checked && started_by(
                cs[0].started@,
                (#[trigger] cs[0].pending.targets@[t]).assignment.node,
                cs[0].started@.len() as int,
            ) is Some implies exists|i: int| 0 <= i < n && #[trigger] targets[i] == t by {
            if t < a.checked {
                let i = choose|i: int| 0 <= i < n - 1 && #[trigger] targets[i] == t;
                assert(targets[i] == t);
            } else {
                assert(t == m);
                assert(targets[n - 1] == t);
            }
        }
    }
}

proof fn lemma_check_range(targets: Seq<Target>, started: Seq<RankStarted>, i: int)
    requires
        0 <= i <= targets.len(),
    ensures
        i <= next_check(targets, started, i) <= targets.len(),
        forall|k: int|
            i <= k < next_check(targets, started, i) ==> started_by(
                started,
                (#[trigger] targets[k]).assignment.node,
                started.len() as int,
            ) is None,
    decreases targets.len() - i,
{
    if i < targets.len() {
        lemma_check_range(targets, started, i + 1);
    }
}

proof fn lemma_next_check(targets: Seq<Target>, started: Seq<RankStarted>, i: int)
    requires
        0 <= i,
        next_check(targets, started, i) >= targets.len(),
    ensures
        forall|k: int|
            i <= k < targets.len() ==> started_by(
                started,
                (#[trigger] targets[k]).assignment.node,
                started.len() as int,
            ) is None,
    decreases targets.len() - i,
{
    if i < targets.len() {
        lemma_next_check(targets, started, i + 1);
    }
}

/// Law: one refusal releases every reservation already taken, and asks nobody
/// to release what was never taken.
pub proof fn law_a_refusal_releases_what_was_taken(
    targets: Seq<Target>,
    answers: Seq<RankPrepare>,
    r: Release,
)
    requires
        targets.len() == answers.len(),
    ensures
        taken(targets, answers, answers.len() as int).contains(r) <==> exists|j: int|
            0 <= j < answers.len() && (#[trigger] answers[j]).prepared && release_of(targets[j])
                == r,
{
    lemma_taken(targets, answers, r, answers.len() as int);
}

proof fn lemma_taken(targets: Seq<Target>, answers: Seq<RankPrepare>, r: Release, n: int)
    requires
        targets.len() == answers.len(),
        0 <= n <= answers.len(),
    ensures
        taken(targets, answers, n).contains(r) <==> exists|j: int|
            0 <= j < n && (#[trigger] answers[j]).prepared && release_of(targets[j]) == r,
    decreases n,
{
    if n > 0 {
        lemma_taken(targets, answers, r, n - 1);
        let a = taken(targets, answers, n - 1);
        let b = taken(targets, answers, n);
        if answers[n - 1].prepared {
            let last = release_of(targets[n - 1]);
            assert(b =~= a.push(last));
            if a.contains(r) {
                let k = choose|k: int| 0 <= k < a.len() && a[k] == r;
                assert(b[k] == r);
            }
            if last == r {
                assert(b[a.len() as int] == r);
            }
            if b.contains(r) {
                let k = choose|k: int| 0 <= k < b.len() && b[k] == r;
                if k < a.len() {
                    assert(a[k] == r);
                } else {
                    assert(answers[n - 1].prepared);
                }
            }
        }
    }
}

/// Law: while a cluster runs a second one is refused, and once it has been
/// torn down the next one is not: it is judged by its own plan alone.
pub proof fn law_one_cluster_at_a_time<F>(
    d: ClusterDriver,
    fleet: Seq<NodeDescriptor<F>>,
    dialable: Seq<bool>,
    req: Request,
    epoch: Seq<char>,
    r: Result<Prepare, String>,
)
    requires
        d.prepares(fleet, dialable, req, epoch, r),
    ensures
        d.running is Some ==> r is Err,
        d.running is None && r is Err ==> d.resolves(
            fleet,
            dialable,
            req,
            epoch,
            Err::<Pending, String>(r->Err_0),
        ),
        d.running is None && r is Ok ==> d.resolves(
            fleet,
            dialable,
            req,
            epoch,
            Ok::<Pending, String>(r->Ok_0.pending),
        ),
{
}

/// Law: a prepare is committed once, and only under its own epoch. A commit
/// that is replayed, or that quotes another attempt, starts nothing.
pub proof fn law_a_prepare_is_committed_once(
    before: ClusterDriver,
    after: ClusterDriver,
    epoch: Seq<char>,
    again: Seq<char>,
    r: Result<Commit, String>,
    s: Result<Commit, String>,
)
    requires
        before.commits(epoch, r),
        r is Ok,
        after == (ClusterDriver { pending: None, ..before }),
        after.commits(again, s),
    ensures
        before.pending matches Some(p) && p.epoch@ == epoch,
        s is Err,
{
}

/// The attempts of a stop: each of its states follows from the one before by
/// what came of one rank, beginning with none.
pub open spec fn attempts(
    ss: Seq<Stop>,
    ranks: Seq<int>,
    outcomes: Seq<Result<(), String>>,
) -> bool {
    &&& ss.len() == ranks.len() + 1
    &&& outcomes.len() == ranks.len()
    &&& ss[0].tried == 0
    &&& ss[0].failures@.len() == 0
    &&& ss[0].still@.len() == 0
    &&& forall|i: int|
        0 <= i < ranks.len() ==> ss[i].attempted(#[trigger] ranks[i], outcomes[i], ss[i + 1])
}

/// The ranks, of the first `n` attempted, that could not be stopped.
pub open spec fn unstopped(
    s: Stop,
    ranks: Seq<int>,
    outcomes: Seq<Result<(), String>>,
    n: int,
) -> Seq<RankStarted>
    decreases n,
{
    if n <= 0 {
        Seq::empty()
    } else if outcomes[n - 1] is Err {
        unstopped(s, ranks, outcomes, n - 1).push(s.started@[ranks[n - 1]])
    } else {
        unstopped(s, ranks, outcomes, n - 1)
    }
}

/// What is said of the ranks, of the first `n` attempted, that could not be
/// stopped.
pub open spec fn complaints(
    s: Stop,
    ranks: Seq<int>,
    outcomes: Seq<Result<(), String>>,
    n: int,
) -> Seq<Seq<char>>
    decreases n,
{
    if n <= 0 {
        Seq::empty()
    } else {
        match outcomes[n - 1] {
            Err(e) => complaints(s, ranks, outcomes, n - 1).push(s.complaint(ranks[n - 1], e@)),
            Ok(_) => complaints(s, ranks, outcomes, n - 1),
        }
    }
}

/// Law: every rank is attempted, also after one failed. When a stop has
/// nothing left to do, each rank whose machine is among its targets was told
/// to stop.
pub proof fn law_a_stop_attempts_every_rank(
    ss: Seq<Stop>,
    ranks: Seq<int>,
    outcomes: Seq<Result<(), String>>,
    k: int,
)
    requires
        attempts(ss, ranks, outcomes),
        ss.last().stopping() >= ss.last().started@.len(),
        0 <= k < ss[0].started@.len(),
        ss[0].target_at(k) is Some,
    ensures
        exists|i: int| 0 <= i < ranks.len() && #[trigger] ranks[i] == k,
{
    let n = ranks.len() as int;
    lemma_attempted(ss, ranks, outcomes, n);
    lemma_next_stop(ss[n].started@, ss[n].targets@, ss[n].tried as int);
    assert(ss[0].started@[k] == ss[n].started@[k]);
}

/// Law: a stop keeps exactly what failed. The ranks that are left are those
/// whose stop failed, in their order, and as many machines are named, each
/// with its reason. No rank is attempted twice.
pub proof fn law_a_stop_keeps_what_failed(
    ss: Seq<Stop>,
    ranks: Seq<int>,
    outcomes: Seq<Result<(), String>>,
)
    requires
        attempts(ss, ranks, outcomes),
    ensures
        ss.last().still@ == unstopped(ss[0], ranks, outcomes, ranks.len() as int),
        text::views(ss.last().failures@) == complaints(
            ss[0],
            ranks,
            outcomes,
            ranks.len() as int,
        ),
        ss.last().still@.len() == ss.last().failures@.len(),
        forall|i: int, j: int|
            0 <= i < j < ranks.len() ==> #[trigger] ranks[i] < #[trigger] ranks[j],
        forall|i: int|
            0 <= i < ranks.len() ==> 0 <= #[trigger] ranks[i] < ss[0].started@.len(),
{
    lemma_attempted(ss, ranks, outcomes, ranks.len() as int);
}

/// Law: a stop goes to every rank, and succeeds exactly when each of them was
/// stopped; then nothing is left to be stopped, and asking again says so.
/// Otherwise it names each machine that failed, and asking again finds exactly
/// the ranks that are still up.
pub proof fn law_a_stop_can_be_tried_again(
    before: ClusterDriver,
    ss: Seq<Stop>,
    ranks: Seq<int>,
    outcomes: Seq<Result<(), String>>,
    after: ClusterDriver,
    r: Result<Vec<RankStarted>, String>,
    again: Result<Stop, String>,
)
    requires
        before.sound(),
        attempts(ss, ranks, outcomes),
        before.stops(Ok::<Stop, String>(ss[0])),
        ss.last().stopping() >= ss.last().started@.len(),
        before.stopped(ss.last(), after, r),
        after.stops(again),
    ensures
        ranks.len() == before.running.unwrap().started@.len(),
        forall|i: int| 0 <= i < ranks.len() ==> #[trigger] ranks[i] == i,
        after.sound(),
        r is Ok <==> forall|i: int| 0 <= i < outcomes.len() ==> (#[trigger] outcomes[i]) is Ok,
        match r {
            Ok(v) => {
                &&& v@ == before.running.unwrap().started@
                &&& after.running is None
                &&& again matches Err(why) && why@ == "this agent did not start a cluster"@
            },
            Err(why) => {
                &&& why@ == "could not stop "@ + text::joined(
                    complaints(ss[0], ranks, outcomes, ranks.len() as int),
                    "; "@,
                )
                &&& again matches Ok(s) && s.started@ == unstopped(
                    ss[0],
                    ranks,
                    outcomes,
                    ranks.len() as int,
                )
            },
        },
{
    let running = before.running.unwrap();
    let n = ranks.len() as int;
    lemma_attempted(ss, ranks, outcomes, n);
    assert forall|k: int| 0 <= k < ss[0].started@.len() implies #[trigger] ss[0].target_at(
        k,
    ) is Some by {
        assert(running.started@[k] == ss[0].started@[k]);
        lemma_target_alike(
            ss[0].targets@,
            running.targets@,
            ss[0].started@[k].node,
            ss[0].targets@.len() as int,
        );
    }
    lemma_in_turn(ss, ranks, outcomes, n);
    assert(ss[n].tried == n);
    lemma_next_stop(ss[n].started@, ss[n].targets@, n);
    if n < ss[0].started@.len() {
        assert(ss[0].target_at(n) is Some);
    }
    lemma_unstopped(ss[0], ranks, outcomes, n);
    if let Some(left) = after.running {
        assert forall|k: int| 0 <= k < left.started@.len() implies target_of(
            left.targets@,
            (#[trigger] left.started@[k]).node,
            left.targets@.len() as int,
        ) is Some by {
            let m = choose|m: int|
                0 <= m < ss[0].started@.len() && ss[0].started@[m] == left.started@[k];
            assert(ss[0].target_at(m) is Some);
        }
    }
}

/// Law: a stop that is tried again goes to exactly the ranks whose stop failed
/// before, each once and in their order.
pub proof fn law_a_retry_goes_to_what_failed(
    before: ClusterDriver,
    ss: Seq<Stop>,
    ranks: Seq<int>,
    outcomes: Seq<Result<(), String>>,
    after: ClusterDriver,
    r: Result<Vec<RankStarted>, String>,
    ts: Seq<Stop>,
    again: Seq<int>,
    later: Seq<Result<(), String>>,
)
    requires
        before.sound(),
        attempts(ss, ranks, outcomes),
        before.stops(Ok::<Stop, String>(ss[0])),
        ss.last().stopping() >= ss.last().started@.len(),
        before.stopped(ss.last(), after, r),
        attempts(ts, again, later),
        after.stops(Ok::<Stop, String>(ts[0])),
        ts.last().stopping() >= ts.last().started@.len(),
    ensures
        again.len() == unstopped(ss[0], ranks, outcomes, ranks.len() as int).len(),
        forall|i: int|
            0 <= i < again.len() ==> ts[0].started@[#[trigger] again[i]] == unstopped(
                ss[0],
                ranks,
                outcomes,
                ranks.len() as int,
            )[i],
{
    let begun = Ok::<Stop, String>(ts[0]);
    law_a_stop_can_be_tried_again(before, ss, ranks, outcomes, after, r, begun);
    lemma_attempted(ts, again, later, again.len() as int);
    assert forall|k: int| 0 <= k < ts[0].started@.len() implies #[trigger] ts[0].target_at(
        k,
    ) is Some by {
        assert(after.running.unwrap().started@[k] == ts[0].started@[k]);
        lemma_target_alike(
            ts[0].targets@,
            after.running.unwrap().targets@,
            ts[0].started@[k].node,
            ts[0].targets@.len() as int,
        );
    }
    let n = again.len() as int;
    lemma_in_turn(ts, again, later, n);
    lemma_next_stop(ts[n].started@, ts[n].targets@, n);
    if n < ts[0].started@.len() {
        assert(ts[0].target_at(n) is Some);
    }
}

proof fn lemma_attempted(
    ss: Seq<Stop>,
    ranks: Seq<int>,
    outcomes: Seq<Result<(), String>>,
    n: int,
)
    requires
        attempts(ss, ranks, outcomes),
        0 <= n < ss.len(),
    ensures
        ss[n].targets == ss[0].targets,
        ss[n].started == ss[0].started,
        ss[n].tried <= ss[0].started@.len(),
        ss[n].still@ == unstopped(ss[0], ranks, outcomes, n),
        text::views(ss[n].failures@) == complaints(ss[0], ranks, outcomes, n),
        ss[n].still@.len() == ss[n].failures@.len(),
        forall|i: int| 0 <= i < n ==> 0 <= #[trigger] ranks[i] < ss[n].tried,
        forall|i: int, j: int| 0 <= i < j < n ==> #[trigger] ranks[i] < #[trigger] ranks[j],
        forall|k: int|
            0 <= k < ss[n].tried && (#[trigger] ss[0].target_at(k)) is Some ==> exists|i: int|
                0 <= i < n && #[trigger] ranks[i] == k,
    decreases n,
{
    if n == 0 {
        assert(ss[0].still@ =~= Seq::empty());
        assert(text::views(ss[0].failures@) =~= Seq::empty());
    } else {
        lemma_attempted(ss, ranks, outcomes, n - 1);
        let a = ss[n - 1];
        assert(a.attempted(ranks[n - 1], outcomes[n - 1], ss[n - 1 + 1]));
        lemma_next_stop(a.started@, a.targets@, a.tried as int);
        assert(a.started@.len() == a.started.len());
        assert(a.complaint(ranks[n - 1], outcomes[n - 1]->Err_0@) == ss[0].complaint(
            ranks[n - 1],
            outcomes[n - 1]->Err_0@,
        ));
        assert(text::views(ss[n].failures@).len() == ss[n].failures@.len());
        assert(text::views(a.failures@).len() == a.failures@.len());
        assert forall|k: int|
            0 <= k < ss[n].tried && (#[trigger] ss[0].target_at(k)) is Some implies exists|i: int|
            0 <= i < n && #[trigger] ranks[i] == k by {
            if k < a.tried {
                let i = choose|i: int| 0 <= i < n - 1 && #[trigger] ranks[i] == k;
                assert(ranks[i] == k);
            } else {
                assert(k < ranks[n - 1] ==> target_of(
                    a.targets@,
                    a.started@[k].node,
                    a.targets@.len() as int,
                ) is None);
                assert(ranks[n - 1] == k);
            }
        }
    }
}

proof fn lemma_in_turn(
    ss: Seq<Stop>,
    ranks: Seq<int>,
    outcomes: Seq<Result<(), String>>,
    n: int,
)
    requires
        attempts(ss, ranks, outcomes),
        0 <= n < ss.len(),
        forall|k: int|
            0 <= k < ss[0].started@.len() ==> (#[trigger] ss[0].target_at(k)) is Some,
    ensures
        ss[n].tried == n,
        forall|i: int| 0 <= i < n ==> #[trigger] ranks[i] == i,
    decreases n,
{
    if n > 0 {
        lemma_in_turn(ss, ranks, outcomes, n - 1);
        lemma_attempted(ss, ranks, outcomes, n - 1);
        let a = ss[n - 1];
        assert(a.attempted(ranks[n - 1], outcomes[n - 1], ss[n - 1 + 1]));
        lemma_next_stop(a.started@, a.targets@, n - 1);
        assert(a.started@.len() == a.started.len());
        assert(ss[0].target_at(n - 1) is Some);
    }
}

proof fn lemma_unstopped(s: Stop, ranks: Seq<int>, outcomes: Seq<Result<(), String>>, n: int)
    requires
        0 <= n <= ranks.len(),
        outcomes.len() == ranks.len(),
        forall|i: int| 0 <= i < n ==> 0 <= #[trigger] ranks[i] < s.started@.len(),
    ensures
        unstopped(s, ranks, outcomes, n).len() == 0 <==> forall|i: int|
            0 <= i < n ==> (#[trigger] outcomes[i]) is Ok,
        forall|k: int|
            0 <= k < unstopped(s, ranks, outcomes, n).len() ==> s.started@.contains(
                #[trigger] unstopped(s, ranks, outcomes, n)[k],
            ),
    decreases n,
{
    if n > 0 {
        lemma_unstopped(s, ranks, outcomes, n - 1);
        let front = unstopped(s, ranks, outcomes, n - 1);
        let all = unstopped(s, ranks, outcomes, n);
        assert forall|k: int| 0 <= k < all.len() implies s.started@.contains(
            #[trigger] all[k],
        ) by {
            if k < front.len() {
                assert(all[k] == front[k]);
            } else {
                assert(all[k] == s.started@[ranks[n - 1]]);
            }
        }
        if outcomes[n - 1] is Err {
            assert(!(outcomes[n - 1] is Ok));
        }
    }
}

proof fn lemma_next_stop(started: Seq<RankStarted>, targets: Seq<Target>, k: int)
    requires
        0 <= k <= started.len(),
    ensures
        k <= next_stop(started, targets, k) <= started.len(),
        next_stop(started, targets, k) < started.len() ==> target_of(
            targets,
            started[next_stop(started, targets, k)].node,
            targets.len() as int,
        ) is Some,
        forall|i: int|
            k <= i < next_stop(started, targets, k) ==> target_of(
                targets,
                (#[trigger] started[i]).node,
                targets.len() as int,
            ) is None,
    decreases started.len() - k,
{
    if k < started.len() {
        lemma_next_stop(started, targets, k + 1);
    }
}

/// Law: whoever stopped is named, and nobody else; while everybody is alive
/// nobody is.
pub proof fn law_whoever_stopped_is_named(
    orders: Seq<Order>,
    alive: Seq<bool>,
    id: NodeId,
    name: Seq<char>,
)
    requires
        orders.len() == alive.len(),
    ensures
        gone(orders, alive, orders.len() as int).contains((id, name)) <==> exists|i: int|
            0 <= i < orders.len() && !alive[i] && (#[trigger] orders[i]).node == id
                && orders[i].name@ == name,
        gone(orders, alive, orders.len() as int).len() == 0 <==> forall|i: int|
            0 <= i < alive.len() ==> #[trigger] alive[i],
{
    lemma_gone(orders, alive, id, name, orders.len() as int);
}

proof fn lemma_gone(
    orders: Seq<Order>,
    alive: Seq<bool>,
    id: NodeId,
    name: Seq<char>,
    n: int,
)
    requires
        0 <= n <= orders.len(),
    ensures
        gone(orders, alive, n).contains((id, name)) <==> exists|i: int|
            0 <= i < n && !alive[i] && (#[trigger] orders[i]).node == id && orders[i].name@
                == name,
        gone(orders, alive, n).len() == 0 <==> forall|i: int| 0 <= i < n ==> #[trigger] alive[i],
    decreases n,
{
    if n > 0 {
        lemma_gone(orders, alive, id, name, n - 1);
        let a = gone(orders, alive, n - 1);
        let b = gone(orders, alive, n);
        if !alive[n - 1] {
            let last = (orders[n - 1].node, orders[n - 1].name@);
            assert(b == a.push(last));
            assert(b[a.len() as int] == last);
            if a.contains((id, name)) {
                let k = choose|k: int| 0 <= k < a.len() && a[k] == (id, name);
                assert(b[k] == (id, name));
            }
            if b.contains((id, name)) {
                let k = choose|k: int| 0 <= k < b.len() && b[k] == (id, name);
                if k < a.len() {
                    assert(a[k] == (id, name));
                } else {
                    assert(orders[n - 1].node == id);
                }
            }
        }
    }
}

/// Law: a rank that was started is known by its machine and its container, and
/// the first rank, and no other, by where the cluster serves.
pub proof fn law_the_first_rank_serves(c: Commit, container: String, r: RankStarted)
    requires
        c.is_started(container, r),
        c.started@.len() < c.pending.targets@.len(),
    ensures
        ({
            let t = c.pending.targets@[c.started@.len() as int];
            &&& r.node == t.assignment.node && r.name == t.name && r.rank == t.assignment.rank
                && r.container == container
            &&& r.endpoint is Some <==> t.assignment.rank == 0
            &&& r.endpoint matches Some(e) ==> e@ == "http://"@ + t.assignment.master_addr@ + ":"@
                + text::dec(c.pending.port as nat)
        }),
{
}

/// Law: a rank's answer is taken as it was given.
pub proof fn law_an_answer_is_taken_as_given(t: Target, reply: PrepareReply, a: RankPrepare)
    requires
        is_prepare(t, reply, a),
    ensures
        a.node == t.assignment.node && a.name == t.name && a.rank == t.assignment.rank,
        a.prepared <==> reply is Prepared,
        reply matches PrepareReply::Refused { reason } ==> a.reason@ == reason@,
{
}

/// Law: what is asked of a machine goes to that machine, for the container
/// that runs there.
pub proof fn law_an_order_goes_to_its_rank(
    t: Target,
    r: RankStarted,
    targets: Seq<Target>,
    from: int,
    i: int,
)
    requires
        0 <= from <= i < targets.len(),
    ensures
        order_for(t, r).node == t.assignment.node && order_for(t, r).addr == t.addr && order_for(
            t,
            r,
        ).name == t.name && order_for(t, r).container == r.container,
        release_of(t).node == t.assignment.node && release_of(t).addr == t.addr,
        releases(targets, from).len() == targets.len() - from,
        releases(targets, from)[i - from].node == targets[i].assignment.node,
        releases(targets, from)[i - from].addr == targets[i].addr,
{
}

/// Law: a commit goes through its steps in order. The ranks are started one
/// after the other; one that cannot be ends it, and what was started is
/// stopped; then the cluster is left to settle, where it is to be; and only
/// then is it looked at, and called up where nobody has stopped.
pub proof fn law_a_commit_goes_step_by_step(c: Commit, step: CommitStep)
    requires
        c.is_due(step),
    ensures
        ({
            let k = c.started@.len() as int;
            let n = c.pending.targets@.len() as int;
            &&& k < n && c.failed is None ==> (step matches CommitStep::Start { target } && target
                == k)
            &&& k < n && c.failed is Some ==> (step matches CommitStep::Undo { why, .. } && why@
                == c.pending.targets@[k].name@ + " could not start: "@ + c.failed.unwrap()@)
            &&& k >= n && !c.settled && c.settle > 0 ==> (step matches CommitStep::Settle { ms }
                && ms == c.settle)
            &&& step is Check || step is Up ==> k >= n && (c.settled || c.settle == 0)
            &&& step is Up ==> c.dead@.len() == 0
            &&& step is Undo ==> (k < n && c.failed is Some) || c.dead@.len() > 0
        }),
        seconds(c.settle) == (if c.settle < 2_000 {
            1
        } else {
            c.settle as int / 1_000
        }),
{
    assert(c.started@.len() == c.started.len());
}

} // verus!
