//! What a cluster launch is: who runs which rank, and where they meet.
//!
//! An assignment names a recipe and never a command: each machine renders its
//! own, from its own copy of the recipe.
use crate::fabric::{LinkClass, NodeAddress};
use crate::fleet::{NodeDescriptor, PairingState};
use crate::keyed::keyed;
use crate::net::shares;
use crate::node::NodeId;
use crate::fleet::routing::no_better;
use crate::rendezvous::{lemma_pick, lists, meet, meeting, reaches, reaches_all};
use crate::text;
use vstd::prelude::*;

verus! {

/// The port that ranks meet on.
pub const DEFAULT_MASTER_PORT: u16 = 29500;

/// The value of a setting. A number with a fraction is held by its bits.
#[derive(Debug, Clone, PartialEq, Eq)]
pub enum SettingValue {
    Bool(bool),
    Int(i64),
    Float(u64),
    Text(String),
}

impl SettingValue {
    /// An equal value.
    pub fn copy(&self) -> (r: SettingValue)
        ensures
            r == *self,
    {
        match self {
            SettingValue::Bool(b) => SettingValue::Bool(*b),
            SettingValue::Int(n) => SettingValue::Int(*n),
            SettingValue::Float(n) => SettingValue::Float(*n),
            SettingValue::Text(s) => SettingValue::Text(s.clone()),
        }
    }
}

/// The same settings.
pub fn copy_settings(v: &Vec<(String, SettingValue)>) -> (r: Vec<(String, SettingValue)>)
    ensures
        r@ == v@,
{
    let mut out: Vec<(String, SettingValue)> = Vec::new();
    let mut i: usize = 0;
    while i < v.len()
        invariant
            i <= v.len(),
            out@ == v@.subrange(0, i as int),
        decreases v.len() - i,
    {
        out.push((v[i].0.clone(), v[i].1.copy()));
        i += 1;
        assert(out@ =~= v@.subrange(0, i as int));
    }
    assert(v@.subrange(0, v@.len() as int) =~= v@);
    out
}

/// What one machine is asked to run.
#[derive(Debug, Clone, PartialEq, Eq)]
pub struct RankAssignment {
    pub recipe: String,
    /// The revision of the recipe that the head has.
    pub recipe_hash: String,
    pub rank: u32,
    pub world_size: u32,
    pub node: NodeId,
    pub master_addr: String,
    pub master_port: u16,
    /// What the operator changed, and nothing else.
    pub settings: Vec<(String, SettingValue)>,
}

impl RankAssignment {
    /// Every setting is named once, in ascending order.
    pub open spec fn keyed(self) -> bool {
        keyed(self.settings@)
    }
}

/// A launch across machines.
#[derive(Debug, Clone, PartialEq, Eq)]
pub struct ClusterPlan {
    pub epoch: String,
    pub ranks: Vec<RankAssignment>,
    /// The worst link in it.
    pub link: LinkClass,
    pub link_warning: Option<String>,
}

/// Why there is no plan.
#[derive(Debug, Clone, PartialEq, Eq)]
pub enum PlanError {
    /// The recipe needs another number of machines.
    NodeCount { recipe: String, required: u32, selected: usize },
    /// A machine was selected twice.
    DuplicateNode,
    /// The head is not among the machines.
    HeadNotSelected,
    /// A machine is not paired and answering.
    NotPaired { name: String },
    /// A machine cannot run models.
    NotLaunchable { name: String, reason: String },
    /// A machine has no link that can carry a collective.
    NoUsableLink { name: String },
}

impl PlanError {
    /// What the operator is told.
    pub open spec fn told(self) -> Seq<char> {
        match self {
            PlanError::NodeCount { recipe, required, selected } => "recipe `"@ + recipe@
                + "` needs exactly "@ + text::dec(required as nat) + " nodes, but "@ + text::dec(
                selected as nat,
            ) + " are selected"@,
            PlanError::DuplicateNode => "the same machine is selected twice"@,
            PlanError::HeadNotSelected => "the head must be one of the selected machines"@,
            PlanError::NotPaired { name } => name@ + " is not paired with this machine"@,
            PlanError::NotLaunchable { name, reason } => name@ + " cannot run models: "@ + reason@,
            PlanError::NoUsableLink { name } => name@ + " has no usable network link"@,
        }
    }

    /// What the operator is told.
    pub fn message(&self) -> (r: String)
        ensures
            r@ == self.told(),
    {
        match self {
            PlanError::NodeCount { recipe, required, selected } => {
                let mut s = text::cat3("recipe `", recipe, "` needs exactly ");
                let a = text::decimal(*required as u64);
                s.append(&a);
                s.append(" nodes, but ");
                let b = text::decimal(*selected as u64);
                s.append(&b);
                s.append(" are selected");
                s
            },
            PlanError::DuplicateNode => text::copy("the same machine is selected twice"),
            PlanError::HeadNotSelected => text::copy(
                "the head must be one of the selected machines",
            ),
            PlanError::NotPaired { name } => text::cat2(name, " is not paired with this machine"),
            PlanError::NotLaunchable { name, reason } => text::cat3(
                name,
                " cannot run models: ",
                reason,
            ),
            PlanError::NoUsableLink { name } => text::cat2(name, " has no usable network link"),
        }
    }
}

/// The place of a machine among the first `n` selected.
pub open spec fn place<F>(sel: Seq<&NodeDescriptor<F>>, id: NodeId, n: int) -> Option<int>
    decreases n,
{
    if n <= 0 {
        None
    } else {
        match place(sel, id, n - 1) {
            Some(i) => Some(i),
            None => if sel[n - 1].id == id {
                Some(n - 1)
            } else {
                None
            },
        }
    }
}

/// No machine is among the first `n` twice.
pub open spec fn distinct<F>(sel: Seq<&NodeDescriptor<F>>, n: int) -> bool
    decreases n,
{
    n <= 0 || (distinct(sel, n - 1) && place(sel, sel[n - 1].id, n - 1) is None)
}

/// The place, among the first `n`, of the best link of a machine that can
/// carry a collective.
pub open spec fn own_link(addrs: Seq<NodeAddress>) -> Option<int> {
    meeting(addrs, Seq::empty())
}

/// What rules a machine out, if anything does.
pub open spec fn ruled_out<F>(d: NodeDescriptor<F>, e: PlanError) -> bool {
    if d.pairing != PairingState::Paired {
        e matches PlanError::NotPaired { name } && name@ == d.name@
    } else if !d.launchability.can_launch {
        e matches PlanError::NotLaunchable { name, reason } && name@ == d.name@ && reason@
            == d.launchability.reason@
    } else {
        own_link(d.addresses@) is None && (e matches PlanError::NoUsableLink { name } && name@
            == d.name@)
    }
}

/// A machine that can take a rank.
pub open spec fn fit<F>(d: NodeDescriptor<F>) -> bool {
    d.pairing == PairingState::Paired && d.launchability.can_launch && own_link(d.addresses@) is Some
}

/// The seat of rank `k` when the head was selected at `h`: the head first,
/// the others as they were selected.
pub open spec fn seat(k: int, h: int) -> int {
    if k == 0 {
        h
    } else if k <= h {
        k - 1
    } else {
        k
    }
}

/// The addresses of the ranks after the first.
pub open spec fn worker_addresses<F>(sel: Seq<&NodeDescriptor<F>>, h: int) -> Seq<
    Seq<NodeAddress>,
> {
    Seq::new((sel.len() - 1) as nat, |k: int| sel[seat(k + 1, h)].addresses@)
}

/// The worse of two links.
pub open spec fn worse(a: LinkClass, b: LinkClass) -> LinkClass {
    if b.standing() < a.standing() {
        b
    } else {
        a
    }
}

/// The worst of the best links of the first `n` machines, and of `start`.
pub open spec fn worst_link<F>(sel: Seq<&NodeDescriptor<F>>, start: LinkClass, n: int) -> LinkClass
    decreases n,
{
    if n <= 0 {
        start
    } else {
        worse(
            worst_link(sel, start, n - 1),
            sel[n - 1].addresses@[own_link(sel[n - 1].addresses@).unwrap()].class,
        )
    }
}

/// What the operator is warned of.
pub open spec fn warning(link: LinkClass) -> Option<Seq<char>> {
    if link.slow() {
        Some(
            "one of these links is not a fast fabric; every all-reduce crosses it, so the whole cluster runs at its speed"@,
        )
    } else {
        None
    }
}

/// One rank of a plan.
pub open spec fn is_rank<F>(
    recipe: Seq<char>,
    hash: Seq<char>,
    required: u32,
    sel: Seq<&NodeDescriptor<F>>,
    h: int,
    master: Seq<char>,
    settings: Seq<(String, SettingValue)>,
    k: int,
    a: RankAssignment,
) -> bool {
    &&& a.recipe@ == recipe
    &&& a.recipe_hash@ == hash
    &&& a.rank == k
    &&& a.world_size == required
    &&& a.node == sel[seat(k, h)].id
    &&& a.master_addr@ == master
    &&& a.master_port == DEFAULT_MASTER_PORT
    &&& a.settings@ == settings
}

/// What a selection comes to. Every rank meets on the head's best link that
/// all the others are on.
pub open spec fn planned<F>(
    recipe: Seq<char>,
    hash: Seq<char>,
    required: u32,
    sel: Seq<&NodeDescriptor<F>>,
    head: NodeId,
    settings: Seq<(String, SettingValue)>,
    epoch: Seq<char>,
    r: Result<ClusterPlan, PlanError>,
) -> bool {
    let n = sel.len() as int;
    if n != required {
        r matches Err(PlanError::NodeCount { recipe: who, required: q, selected }) && who@ == recipe
            && q == required && selected == n
    } else if !distinct(sel, n) {
        r matches Err(PlanError::DuplicateNode)
    } else if place(sel, head, n) is None {
        r matches Err(PlanError::HeadNotSelected)
    } else if exists|i: int| 0 <= i < n && !fit(*#[trigger] sel[i]) {
        r matches Err(e) && exists|i: int|
            0 <= i < n && !fit(*#[trigger] sel[i]) && ruled_out(*sel[i], e) && forall|j: int|
                0 <= j < i ==> fit(*#[trigger] sel[j])
    } else {
        let h = place(sel, head, n).unwrap();
        let m = meeting(sel[h].addresses@, worker_addresses(sel, h)).unwrap();
        let master = sel[h].addresses@[m];
        &&& r matches Ok(p)
        &&& p.epoch@ == epoch
        &&& p.ranks@.len() == n
        &&& forall|k: int|
            0 <= k < n ==> is_rank(
                recipe,
                hash,
                required,
                sel,
                h,
                master.addr@,
                settings,
                k,
                #[trigger] p.ranks@[k],
            )
        &&& p.link == worst_link(sel, master.class, n)
        &&& crate::bench::job::opt_view(p.link_warning) == warning(p.link)
    }
}

fn find_place<F>(sel: &Vec<&NodeDescriptor<F>>, id: NodeId, n: usize) -> (r: Option<usize>)
    requires
        n <= sel@.len(),
    ensures
        match r {
            Some(i) => i < n && sel@[i as int].id == id && place(sel@, id, n as int) == Some(
                i as int,
            ),
            None => place(sel@, id, n as int) is None,
        },
{
    let mut i: usize = 0;
    while i < n
        invariant
            i <= n <= sel@.len(),
            place(sel@, id, i as int) is None,
        decreases n - i,
    {
        if sel[i].id == id {
            proof {
                lemma_place(sel@, id, i + 1, n as int);
            }
            return Some(i);
        }
        i += 1;
    }
    None
}

proof fn lemma_place<F>(sel: Seq<&NodeDescriptor<F>>, id: NodeId, i: int, n: int)
    requires
        0 <= i <= n <= sel.len(),
        place(sel, id, i) is Some,
    ensures
        place(sel, id, n) == place(sel, id, i),
    decreases n,
{
    if i < n {
        lemma_place(sel, id, i, n - 1);
    }
}

fn are_distinct<F>(sel: &Vec<&NodeDescriptor<F>>) -> (r: bool)
    ensures
        r == distinct(sel@, sel@.len() as int),
{
    let mut i: usize = 0;
    while i < sel.len()
        invariant
            i <= sel@.len(),
            distinct(sel@, i as int),
        decreases sel@.len() - i,
    {
        if find_place(sel, sel[i].id, i).is_some() {
            proof {
                lemma_not_distinct(sel@, i + 1, sel@.len() as int);
            }
            return false;
        }
        i += 1;
    }
    true
}

proof fn lemma_not_distinct<F>(sel: Seq<&NodeDescriptor<F>>, i: int, n: int)
    requires
        0 <= i <= n <= sel.len(),
        !distinct(sel, i),
    ensures
        !distinct(sel, n),
    decreases n,
{
    if i < n {
        lemma_not_distinct(sel, i, n - 1);
    }
}

fn link_at(addrs: &Vec<NodeAddress>) -> (r: Option<usize>)
    ensures
        match r {
            Some(i) => i < addrs@.len() && own_link(addrs@) == Some(i as int),
            None => own_link(addrs@) is None,
        },
{
    let others: Vec<&Vec<NodeAddress>> = Vec::new();
    assert(lists(others@) =~= Seq::empty());
    meet(addrs, &others)
}

fn objection<F>(d: &NodeDescriptor<F>) -> (r: Option<PlanError>)
    ensures
        match r {
            Some(e) => !fit(*d) && ruled_out(*d, e),
            None => fit(*d),
        },
{
    if d.pairing != PairingState::Paired {
        return Some(PlanError::NotPaired { name: d.name.clone() });
    }
    if !d.launchability.can_launch {
        return Some(
            PlanError::NotLaunchable {
                name: d.name.clone(),
                reason: d.launchability.reason.clone(),
            },
        );
    }
    if link_at(&d.addresses).is_none() {
        return Some(PlanError::NoUsableLink { name: d.name.clone() });
    }
    None
}

proof fn lemma_meeting_some(addrs: Seq<NodeAddress>, others: Seq<Seq<NodeAddress>>)
    requires
        own_link(addrs) is Some,
    ensures
        meeting(addrs, others) matches Some(i) && 0 <= i < addrs.len(),
{
    crate::rendezvous::lemma_meeting_exists(addrs, Seq::empty(), others);
}

/// Plan a launch on the machines that were selected, in that order.
///
/// The recipe's own node count decides how many machines are needed. Every
/// machine must be paired, able to run models, and on a link that can carry a
/// collective; the first that is not is named.
pub fn plan<F>(
    recipe: &str,
    hash: &str,
    required: u32,
    sel: &Vec<&NodeDescriptor<F>>,
    head: NodeId,
    settings: &Vec<(String, SettingValue)>,
    epoch: &str,
) -> (r: Result<ClusterPlan, PlanError>)
    ensures
        planned(recipe@, hash@, required, sel@, head, settings@, epoch@, r),
{
    let n = sel.len();
    if n as u64 != required as u64 {
        return Err(PlanError::NodeCount { recipe: text::copy(recipe), required, selected: n });
    }
    if !are_distinct(sel) {
        return Err(PlanError::DuplicateNode);
    }
    let h = match find_place(sel, head, n) {
        Some(h) => h,
        None => return Err(PlanError::HeadNotSelected),
    };
    let mut i: usize = 0;
    while i < n
        invariant
            i <= n,
            n == sel@.len(),
            n == required,
            distinct(sel@, n as int),
            place(sel@, head, n as int) == Some(h as int),
            forall|j: int| 0 <= j < i ==> fit(*#[trigger] sel@[j]),
        decreases n - i,
    {
        match objection(sel[i]) {
            Some(e) => {
                assert(!fit(*sel@[i as int]));
                return Err(e);
            },
            None => {},
        }
        i += 1;
    }
    let mut others: Vec<&Vec<NodeAddress>> = Vec::new();
    let mut k: usize = 1;
    while k < n
        invariant
            1 <= k <= n,
            n == sel@.len(),
            h < n,
            others@.len() == k - 1,
            forall|j: int|
                0 <= j < k - 1 ==> (#[trigger] others@[j])@ == worker_addresses(sel@, h as int)[j],
        decreases n - k,
    {
        let s: usize = if k <= h {
            k - 1
        } else {
            k
        };
        others.push(&sel[s].addresses);
        k += 1;
    }
    assert(lists(others@) =~= worker_addresses(sel@, h as int));
    assert(fit(*sel@[h as int]));
    proof {
        lemma_meeting_some(sel@[h as int].addresses@, worker_addresses(sel@, h as int));
    }
    let (addr, class) = match meet(&sel[h].addresses, &others) {
        Some(m) => (sel[h].addresses[m].addr.clone(), sel[h].addresses[m].class),
        None => return Err(PlanError::HeadNotSelected),
    };
    let ghost m = meeting(
        sel@[h as int].addresses@,
        worker_addresses(sel@, h as int),
    ).unwrap();
    let ghost master = sel@[h as int].addresses@[m];
    let mut link = class;
    let mut ranks: Vec<RankAssignment> = Vec::new();
    let mut j: usize = 0;
    while j < n
        invariant
            j <= n,
            n == sel@.len(),
            n == required,
            h < n,
            class == master.class,
            addr@ == master.addr@,
            forall|x: int| 0 <= x < n ==> fit(*#[trigger] sel@[x]),
            link == worst_link(sel@, master.class, j as int),
            ranks@.len() == j,
            forall|x: int|
                0 <= x < j ==> is_rank(
                    recipe@,
                    hash@,
                    required,
                    sel@,
                    h as int,
                    master.addr@,
                    settings@,
                    x,
                    #[trigger] ranks@[x],
                ),
        decreases n - j,
    {
        let s: usize = if j == 0 {
            h
        } else if j <= h {
            j - 1
        } else {
            j
        };
        ranks.push(
            RankAssignment {
                recipe: text::copy(recipe),
                recipe_hash: text::copy(hash),
                rank: j as u32,
                world_size: required,
                node: sel[s].id,
                master_addr: addr.clone(),
                master_port: DEFAULT_MASTER_PORT,
                settings: copy_settings(settings),
            },
        );
        assert(fit(*sel@[j as int]));
        match link_at(&sel[j].addresses) {
            Some(b) => {
                let c = sel[j].addresses[b].class;
                if c.rank() < link.rank() {
                    link = c;
                }
            },
            None => {},
        }
        j += 1;
    }
    let link_warning = if link.warns() {
        Some(
            text::copy(
                "one of these links is not a fast fabric; every all-reduce crosses it, so the whole cluster runs at its speed",
            ),
        )
    } else {
        None
    };
    Ok(ClusterPlan { epoch: text::copy(epoch), ranks, link, link_warning })
}

// ---------------------------------------------------------------------------
// The commit gate
// ---------------------------------------------------------------------------

/// What a machine answers when it is asked to take a rank.
#[derive(Debug, Clone, PartialEq, Eq)]
pub enum PrepareReply {
    Prepared,
    Refused { reason: String },
}

impl PrepareReply {
    /// An equal reply.
    pub fn copy(&self) -> (r: PrepareReply)
        ensures
            r == *self,
    {
        match self {
            PrepareReply::Prepared => PrepareReply::Prepared,
            PrepareReply::Refused { reason } => PrepareReply::Refused { reason: reason.clone() },
        }
    }
}

/// Why a machine does not take a rank.
#[derive(Debug, Clone, PartialEq, Eq)]
pub enum RefusalReason {
    /// It is running something already.
    AlreadyRunning(String),
    /// Its copy of the recipe is another one.
    RecipeMismatch { recipe: String, head: String, local: String },
}

impl RefusalReason {
    /// What the operator is told.
    pub open spec fn told(self) -> Seq<char> {
        match self {
            RefusalReason::AlreadyRunning(what) => "`"@ + what@
                + "` is already running on this node"@,
            RefusalReason::RecipeMismatch { recipe, head, local } => "recipe `"@ + recipe@
                + "` differs: the head has "@ + head@ + ", this node has "@ + local@
                + "; run the same metralectl on both"@,
        }
    }

    /// What the operator is told.
    pub fn message(&self) -> (r: String)
        ensures
            r@ == self.told(),
    {
        match self {
            RefusalReason::AlreadyRunning(what) => text::cat3(
                "`",
                what,
                "` is already running on this node",
            ),
            RefusalReason::RecipeMismatch { recipe, head, local } => {
                let mut s = text::cat3("recipe `", recipe, "` differs: the head has ");
                s.append(head);
                s.append(", this node has ");
                s.append(local);
                s.append("; run the same metralectl on both");
                s
            },
        }
    }
}

/// The answers to one plan. Nothing is started before every machine has said
/// yes; a missing answer is not a yes.
#[derive(Debug)]
pub struct PrepareTracker {
    pub epoch: String,
    /// The machines of the plan, each with its answer.
    pub replies: Vec<(NodeId, Option<PrepareReply>)>,
}

/// The place of a machine among the first `n` of a plan.
pub open spec fn answer_place(replies: Seq<(NodeId, Option<PrepareReply>)>, id: NodeId, n: int) -> Option<
    int,
>
    decreases n,
{
    if n <= 0 {
        None
    } else {
        match answer_place(replies, id, n - 1) {
            Some(i) => Some(i),
            None => if replies[n - 1].0 == id {
                Some(n - 1)
            } else {
                None
            },
        }
    }
}

/// The machines among the first `n` that said yes.
pub open spec fn who_prepared(replies: Seq<(NodeId, Option<PrepareReply>)>, n: int) -> Seq<NodeId>
    decreases n,
{
    if n <= 0 {
        Seq::empty()
    } else if replies[n - 1].1 == Some(PrepareReply::Prepared) {
        who_prepared(replies, n - 1).push(replies[n - 1].0)
    } else {
        who_prepared(replies, n - 1)
    }
}

/// The machines among the first `n` that said no, and why.
pub open spec fn who_refused(replies: Seq<(NodeId, Option<PrepareReply>)>, n: int) -> Seq<
    (NodeId, String),
>
    decreases n,
{
    if n <= 0 {
        Seq::empty()
    } else {
        match replies[n - 1].1 {
            Some(PrepareReply::Refused { reason }) => who_refused(replies, n - 1).push(
                (replies[n - 1].0, reason),
            ),
            _ => who_refused(replies, n - 1),
        }
    }
}

impl PrepareTracker {
    /// Every machine has answered.
    pub open spec fn answered(&self) -> bool {
        forall|i: int| 0 <= i < self.replies@.len() ==> (#[trigger] self.replies@[i]).1 is Some
    }

    /// Every machine has said yes.
    pub open spec fn agreed(&self) -> bool {
        forall|i: int|
            0 <= i < self.replies@.len() ==> (#[trigger] self.replies@[i]).1 == Some(
                PrepareReply::Prepared,
            )
    }

    /// A plan that nobody has answered.
    pub fn new(plan: &ClusterPlan) -> (r: Self)
        ensures
            r.epoch == plan.epoch,
            r.replies@ == Seq::new(
                plan.ranks@.len(),
                |i: int| (plan.ranks@[i].node, None::<PrepareReply>),
            ),
    {
        let mut replies: Vec<(NodeId, Option<PrepareReply>)> = Vec::new();
        let mut i: usize = 0;
        while i < plan.ranks.len()
            invariant
                i <= plan.ranks@.len(),
                replies@.len() == i,
                forall|k: int|
                    0 <= k < i ==> #[trigger] replies@[k] == (
                        plan.ranks@[k].node,
                        None::<PrepareReply>,
                    ),
            decreases plan.ranks@.len() - i,
        {
            replies.push((plan.ranks[i].node, None));
            i += 1;
        }
        assert(replies@ =~= Seq::new(
            plan.ranks@.len(),
            |i: int| (plan.ranks@[i].node, None::<PrepareReply>),
        ));
        PrepareTracker { epoch: plan.epoch.clone(), replies }
    }

    /// Take an answer; whether it counts. One for another attempt, or from a
    /// machine that is not in the plan, is ignored.
    pub fn record(&mut self, epoch: &str, node: NodeId, reply: PrepareReply) -> (r: bool)
        ensures
            final(self).epoch == old(self).epoch,
            r == (epoch@ == old(self).epoch@ && answer_place(
                old(self).replies@,
                node,
                old(self).replies@.len() as int,
            ) is Some),
            final(self).replies@ == (if r {
                old(self).replies@.update(
                    answer_place(
                        old(self).replies@,
                        node,
                        old(self).replies@.len() as int,
                    ).unwrap(),
                    (node, Some(reply)),
                )
            } else {
                old(self).replies@
            }),
    {
        if !text::same(epoch, &self.epoch) {
            return false;
        }
        let mut i: usize = 0;
        while i < self.replies.len()
            invariant
                *self == *old(self),
                epoch@ == self.epoch@,
                i <= self.replies@.len(),
                answer_place(self.replies@, node, i as int) is None,
            decreases self.replies@.len() - i,
        {
            if self.replies[i].0 == node {
                proof {
                    lemma_answer_place(self.replies@, node, i + 1, self.replies@.len() as int);
                }
                self.replies.set(i, (node, Some(reply)));
                return true;
            }
            i += 1;
        }
        false
    }

    /// Whether every machine has answered.
    pub fn complete(&self) -> (r: bool)
        ensures
            r == self.answered(),
    {
        let mut i: usize = 0;
        while i < self.replies.len()
            invariant
                i <= self.replies@.len(),
                forall|k: int| 0 <= k < i ==> (#[trigger] self.replies@[k]).1 is Some,
            decreases self.replies@.len() - i,
        {
            if self.replies[i].1.is_none() {
                return false;
            }
            i += 1;
        }
        true
    }

    /// Whether the launch may go ahead.
    pub fn may_commit(&self) -> (r: bool)
        ensures
            r == self.agreed(),
    {
        let mut i: usize = 0;
        while i < self.replies.len()
            invariant
                i <= self.replies@.len(),
                forall|k: int|
                    0 <= k < i ==> (#[trigger] self.replies@[k]).1 == Some(PrepareReply::Prepared),
            decreases self.replies@.len() - i,
        {
            let yes = match &self.replies[i].1 {
                Some(PrepareReply::Prepared) => true,
                _ => false,
            };
            if !yes {
                return false;
            }
            i += 1;
        }
        true
    }

    /// The machines that said no, and why.
    pub fn refusals(&self) -> (r: Vec<(NodeId, String)>)
        ensures
            r@ == who_refused(self.replies@, self.replies@.len() as int),
    {
        let mut out: Vec<(NodeId, String)> = Vec::new();
        let mut i: usize = 0;
        while i < self.replies.len()
            invariant
                i <= self.replies@.len(),
                out@ == who_refused(self.replies@, i as int),
            decreases self.replies@.len() - i,
        {
            match &self.replies[i].1 {
                Some(PrepareReply::Refused { reason }) => {
                    out.push((self.replies[i].0, reason.clone()));
                },
                _ => {},
            }
            i += 1;
        }
        out
    }

    /// The machines that hold a reservation.
    pub fn prepared(&self) -> (r: Vec<NodeId>)
        ensures
            r@ == who_prepared(self.replies@, self.replies@.len() as int),
    {
        let mut out: Vec<NodeId> = Vec::new();
        let mut i: usize = 0;
        while i < self.replies.len()
            invariant
                i <= self.replies@.len(),
                out@ == who_prepared(self.replies@, i as int),
            decreases self.replies@.len() - i,
        {
            match &self.replies[i].1 {
                Some(PrepareReply::Prepared) => {
                    out.push(self.replies[i].0);
                },
                _ => {},
            }
            i += 1;
        }
        out
    }
}

proof fn lemma_answer_place(
    replies: Seq<(NodeId, Option<PrepareReply>)>,
    id: NodeId,
    i: int,
    n: int,
)
    requires
        0 <= i <= n <= replies.len(),
        answer_place(replies, id, i) is Some,
    ensures
        answer_place(replies, id, n) == answer_place(replies, id, i),
    decreases n,
{
    if i < n {
        lemma_answer_place(replies, id, i, n - 1);
    }
}

// ---------------------------------------------------------------------------
// Laws
// ---------------------------------------------------------------------------

/// Law: the head is rank zero, every selected machine holds exactly one rank,
/// and all of them meet at one address.
pub proof fn law_every_machine_holds_one_rank<F>(
    recipe: Seq<char>,
    hash: Seq<char>,
    required: u32,
    sel: Seq<&NodeDescriptor<F>>,
    head: NodeId,
    settings: Seq<(String, SettingValue)>,
    epoch: Seq<char>,
    p: ClusterPlan,
    i: int,
)
    requires
        planned(
            recipe,
            hash,
            required,
            sel,
            head,
            settings,
            epoch,
            Ok::<ClusterPlan, PlanError>(p),
        ),
        0 <= i < sel.len(),
    ensures
        p.ranks@.len() == sel.len(),
        p.ranks@[0].node == head,
        exists|k: int| 0 <= k < p.ranks@.len() && (#[trigger] p.ranks@[k]).node == sel[i].id,
        forall|a: int, b: int|
            0 <= a < b < p.ranks@.len() ==> (#[trigger] p.ranks@[a]).node != (
            #[trigger] p.ranks@[b]).node,
        forall|a: int|
            0 <= a < p.ranks@.len() ==> (#[trigger] p.ranks@[a]).rank == a
                && p.ranks@[a].master_addr@ == p.ranks@[0].master_addr@,
{
    let n = sel.len() as int;
    let h = place(sel, head, n).unwrap();
    lemma_place_bounds(sel, head, n);
    assert(p.ranks@[0].node == sel[h].id);
    let k = if i == h {
        0
    } else if i < h {
        i + 1
    } else {
        i
    };
    assert(seat(k, h) == i);
    assert(p.ranks@[k].node == sel[i].id);
    assert forall|a: int, b: int| 0 <= a < b < p.ranks@.len() implies (
    #[trigger] p.ranks@[a]).node != (#[trigger] p.ranks@[b]).node by {
        let x = seat(a, h);
        let y = seat(b, h);
        if x < y {
            lemma_distinct(sel, n, x, y);
        } else {
            lemma_distinct(sel, n, y, x);
        }
    }
}

proof fn lemma_place_bounds<F>(sel: Seq<&NodeDescriptor<F>>, id: NodeId, n: int)
    requires
        0 <= n <= sel.len(),
    ensures
        place(sel, id, n) matches Some(i) ==> 0 <= i < n && sel[i].id == id,
    decreases n,
{
    if n > 0 {
        lemma_place_bounds(sel, id, n - 1);
    }
}

proof fn lemma_distinct<F>(sel: Seq<&NodeDescriptor<F>>, n: int, a: int, b: int)
    requires
        0 <= a < b < n <= sel.len(),
        distinct(sel, n),
    ensures
        sel[a].id != sel[b].id,
    decreases n,
{
    if b < n - 1 {
        lemma_distinct(sel, n - 1, a, b);
    } else if sel[a].id == sel[b].id {
        assert(place(sel, sel[b].id, a + 1) is Some);
        lemma_place(sel, sel[b].id, a + 1, n - 1);
    }
}

/// Law: the launch goes ahead only once every machine of the plan has said
/// yes to this very attempt. While one answer is missing or is a refusal, it
/// does not.
pub proof fn law_a_missing_answer_is_not_a_yes(t: PrepareTracker, i: int)
    requires
        0 <= i < t.replies@.len(),
        t.replies@[i].1 != Some(PrepareReply::Prepared),
    ensures
        !t.agreed(),
{
}

/// Law: whoever holds a reservation is known. A machine that said yes is
/// among those that must be released if the launch does not go ahead, and no
/// other is.
pub proof fn law_every_reservation_is_known(t: PrepareTracker, id: NodeId)
    ensures
        who_prepared(t.replies@, t.replies@.len() as int).contains(id) <==> exists|i: int|
            0 <= i < t.replies@.len() && (#[trigger] t.replies@[i]).0 == id && t.replies@[i].1
                == Some(PrepareReply::Prepared),
{
    lemma_prepared(t.replies@, id, t.replies@.len() as int);
}

proof fn lemma_prepared(replies: Seq<(NodeId, Option<PrepareReply>)>, id: NodeId, n: int)
    requires
        0 <= n <= replies.len(),
    ensures
        who_prepared(replies, n).contains(id) <==> exists|i: int|
            0 <= i < n && (#[trigger] replies[i]).0 == id && replies[i].1 == Some(
                PrepareReply::Prepared,
            ),
    decreases n,
{
    if n > 0 {
        lemma_prepared(replies, id, n - 1);
        let a = who_prepared(replies, n - 1);
        let b = who_prepared(replies, n);
        let last = replies[n - 1];
        if last.1 == Some(PrepareReply::Prepared) {
            assert(b =~= a.push(last.0));
            if a.contains(id) {
                let k = choose|k: int| 0 <= k < a.len() && a[k] == id;
                assert(b[k] == id);
            }
            if last.0 == id {
                assert(b[a.len() as int] == id);
            }
            if b.contains(id) {
                let k = choose|k: int| 0 <= k < b.len() && b[k] == id;
                if k < a.len() {
                    assert(a[k] == id);
                } else {
                    assert(replies[n - 1].0 == id);
                }
            }
        }
    }
}

/// Law: every rank gets the settings of the launch, keyed where they are.
pub proof fn law_every_rank_gets_the_settings<F>(
    recipe: Seq<char>,
    hash: Seq<char>,
    required: u32,
    sel: Seq<&NodeDescriptor<F>>,
    head: NodeId,
    settings: Seq<(String, SettingValue)>,
    epoch: Seq<char>,
    p: ClusterPlan,
    k: int,
)
    requires
        planned(
            recipe,
            hash,
            required,
            sel,
            head,
            settings,
            epoch,
            Ok::<ClusterPlan, PlanError>(p),
        ),
        keyed(settings),
        0 <= k < p.ranks@.len(),
    ensures
        p.ranks@[k].settings@ == settings,
        p.ranks@[k].keyed(),
{
}

/// A link that can carry a collective.
pub open spec fn carries(c: LinkClass) -> bool {
    c is InfiniBand || c is Roce || c is Ethernet || c is Unverified
}

/// At `j` stands a link that can carry a collective, and no other that can is
/// better.
pub open spec fn is_best_link(addrs: Seq<NodeAddress>, j: int) -> bool {
    &&& 0 <= j < addrs.len()
    &&& carries(addrs[j].class)
    &&& forall|m: int|
        0 <= m < addrs.len() && carries((#[trigger] addrs[m]).class) ==> no_better(
            addrs[j],
            addrs[m],
        )
}

/// Some link can carry a collective.
pub open spec fn has_link(addrs: Seq<NodeAddress>) -> bool {
    exists|j: int| 0 <= j < addrs.len() && carries((#[trigger] addrs[j]).class)
}

proof fn lemma_own_link(addrs: Seq<NodeAddress>)
    ensures
        own_link(addrs) is Some <==> has_link(addrs),
        own_link(addrs) matches Some(j) ==> is_best_link(addrs, j),
{
    let none = Seq::<Seq<NodeAddress>>::empty();
    lemma_pick(addrs, none, true, addrs.len() as int);
    lemma_pick(addrs, none, false, addrs.len() as int);
    if own_link(addrs) is Some {
        let j = own_link(addrs).unwrap();
        assert(carries(addrs[j].class));
        assert forall|m: int|
            0 <= m < addrs.len() && carries((#[trigger] addrs[m]).class) implies no_better(
            addrs[j],
            addrs[m],
        ) by {
            assert(addrs[m].class.collective());
            assert(reaches_all(addrs[m], none));
        }
    } else if has_link(addrs) {
        let j = choose|j: int| 0 <= j < addrs.len() && carries((#[trigger] addrs[j]).class);
        assert(addrs[j].class.collective());
    }
}

/// Law: the worst link decides. The link of a plan is no better than the best
/// link of any of its machines, in whatever order they were selected, and it
/// is the link of one of them. The operator is warned exactly where it is
/// Ethernet.
pub proof fn law_the_worst_link_decides<F>(
    recipe: Seq<char>,
    hash: Seq<char>,
    required: u32,
    sel: Seq<&NodeDescriptor<F>>,
    head: NodeId,
    settings: Seq<(String, SettingValue)>,
    epoch: Seq<char>,
    p: ClusterPlan,
    i: int,
)
    requires
        planned(
            recipe,
            hash,
            required,
            sel,
            head,
            settings,
            epoch,
            Ok::<ClusterPlan, PlanError>(p),
        ),
        0 <= i < sel.len(),
    ensures
        forall|j: int| #[trigger]
            is_best_link(sel[i].addresses@, j) ==> p.link.standing()
                <= sel[i].addresses@[j].class.standing(),
        exists|x: int, j: int|
            0 <= x < sel.len() && 0 <= j < sel[x].addresses@.len() && p.link
                == #[trigger] sel[x].addresses@[j].class && (is_best_link(sel[x].addresses@, j) || (
            sel[x].id == head && sel[x].addresses@[j].addr@ == p.ranks@[0].master_addr@)),
        carries(p.link),
        p.link_warning is Some <==> p.link is Ethernet,
        p.link_warning matches Some(w) ==> w@
            == "one of these links is not a fast fabric; every all-reduce crosses it, so the whole cluster runs at its speed"@,
        (forall|m: int|
            0 <= m < sel[i].addresses@.len() ==> !((#[trigger] sel[i].addresses@[m]).class
                is InfiniBand || sel[i].addresses@[m].class is Roce)) ==> (p.link is Ethernet
            && p.link_warning is Some) || p.link is Unverified,
{
    let n = sel.len() as int;
    let h = place(sel, head, n).unwrap();
    lemma_place_bounds(sel, head, n);
    assert(fit(*sel[h]));
    lemma_meeting_some(sel[h].addresses@, worker_addresses(sel, h));
    let m = meeting(sel[h].addresses@, worker_addresses(sel, h)).unwrap();
    lemma_pick(sel[h].addresses@, worker_addresses(sel, h), true, sel[h].addresses@.len() as int);
    lemma_pick(sel[h].addresses@, worker_addresses(sel, h), false, sel[h].addresses@.len() as int);
    let start = sel[h].addresses@[m].class;
    assert(p.ranks@[0].master_addr@ == sel[h].addresses@[m].addr@);
    lemma_worst_link(sel, start, n);
    assert(fit(*sel[i]));
    lemma_own_link(sel[i].addresses@);
    assert forall|j: int| #[trigger] is_best_link(sel[i].addresses@, j) implies p.link.standing()
        <= sel[i].addresses@[j].class.standing() by {
        let b = own_link(sel[i].addresses@).unwrap();
        assert(no_better(sel[i].addresses@[j], sel[i].addresses@[b]));
    }
    if p.link == start {
        assert(p.link == sel[h].addresses@[m].class);
    } else {
        let x = choose|x: int| 0 <= x < n && p.link == #[trigger] own_class(*sel[x]);
        assert(fit(*sel[x]));
        lemma_own_link(sel[x].addresses@);
        let b = own_link(sel[x].addresses@).unwrap();
        assert(p.link == sel[x].addresses@[b].class);
    }
    let own = own_link(sel[i].addresses@).unwrap();
    assert(is_best_link(sel[i].addresses@, own));
}

/// The class of a machine's best link.
spec fn own_class<F>(d: NodeDescriptor<F>) -> LinkClass {
    d.addresses@[own_link(d.addresses@).unwrap()].class
}

proof fn lemma_worst_link<F>(sel: Seq<&NodeDescriptor<F>>, start: LinkClass, n: int)
    requires
        0 <= n <= sel.len(),
    ensures
        worst_link(sel, start, n).standing() <= start.standing(),
        forall|x: int|
            0 <= x < n ==> worst_link(sel, start, n).standing() <= own_class(
                *#[trigger] sel[x],
            ).standing(),
        worst_link(sel, start, n) == start || exists|x: int|
            0 <= x < n && worst_link(sel, start, n) == #[trigger] own_class(*sel[x]),
    decreases n,
{
    if n > 0 {
        lemma_worst_link(sel, start, n - 1);
        let was = worst_link(sel, start, n - 1);
        let now = worst_link(sel, start, n);
        if now == was {
            if was != start {
                let x = choose|x: int| 0 <= x < n - 1 && was == #[trigger] own_class(*sel[x]);
                assert(now == own_class(*sel[x]));
            }
        } else {
            assert(now == own_class(*sel[n - 1]));
        }
    }
}

/// Law: a plan is made exactly when it can be: the number of machines is the
/// recipe's, none is selected twice, the head is one of them, and each is
/// paired, can run models, and has a link that can carry a collective.
pub proof fn law_a_plan_is_made_when_it_can_be<F>(
    recipe: Seq<char>,
    hash: Seq<char>,
    required: u32,
    sel: Seq<&NodeDescriptor<F>>,
    head: NodeId,
    settings: Seq<(String, SettingValue)>,
    epoch: Seq<char>,
    r: Result<ClusterPlan, PlanError>,
)
    requires
        planned(recipe, hash, required, sel, head, settings, epoch, r),
    ensures
        r is Ok <==> {
            &&& sel.len() == required
            &&& forall|a: int, b: int|
                0 <= a < b < sel.len() ==> (#[trigger] sel[a]).id != (#[trigger] sel[b]).id
            &&& exists|h: int| 0 <= h < sel.len() && (#[trigger] sel[h]).id == head
            &&& forall|i: int|
                0 <= i < sel.len() ==> (#[trigger] sel[i]).pairing is Paired
                    && sel[i].launchability.can_launch && has_link(sel[i].addresses@)
        },
        r matches Err(PlanError::NodeCount { .. }) <==> sel.len() != required,
        r matches Err(PlanError::DuplicateNode) ==> exists|a: int, b: int|
            0 <= a < b < sel.len() && (#[trigger] sel[a]).id == (#[trigger] sel[b]).id,
        r matches Err(PlanError::HeadNotSelected) ==> forall|h: int|
            0 <= h < sel.len() ==> (#[trigger] sel[h]).id != head,
        r matches Err(PlanError::NotPaired { name }) ==> exists|i: int|
            0 <= i < sel.len() && (#[trigger] sel[i]).name@ == name@ && !(sel[i].pairing is Paired),
        r matches Err(PlanError::NotLaunchable { name, reason }) ==> exists|i: int|
            0 <= i < sel.len() && (#[trigger] sel[i]).name@ == name@
                && !sel[i].launchability.can_launch && reason@ == sel[i].launchability.reason@,
        r matches Err(PlanError::NoUsableLink { name }) ==> exists|i: int|
            0 <= i < sel.len() && (#[trigger] sel[i]).name@ == name@ && !has_link(
                sel[i].addresses@,
            ),
{
    let n = sel.len() as int;
    lemma_place_found(sel, head, n);
    assert forall|i: int| 0 <= i < n implies fit(*#[trigger] sel[i]) == (sel[i].pairing is Paired
        && sel[i].launchability.can_launch && has_link(sel[i].addresses@)) by {
        lemma_own_link(sel[i].addresses@);
    }
    lemma_distinct_means(sel, n);
    if n == required && distinct(sel, n) && place(sel, head, n) is Some {
        if exists|i: int| 0 <= i < n && !fit(*#[trigger] sel[i]) {
            let e = r->Err_0;
            let i = choose|i: int|
                0 <= i < n && !fit(*#[trigger] sel[i]) && ruled_out(*sel[i], e) && forall|j: int|
                    0 <= j < i ==> fit(*#[trigger] sel[j]);
            lemma_own_link(sel[i].addresses@);
            assert(sel[i].name@ == sel[i].name@);
        }
    }
}

proof fn lemma_place_found<F>(sel: Seq<&NodeDescriptor<F>>, id: NodeId, n: int)
    requires
        0 <= n <= sel.len(),
    ensures
        place(sel, id, n) is Some <==> exists|i: int| 0 <= i < n && (#[trigger] sel[i]).id == id,
    decreases n,
{
    lemma_place_bounds(sel, id, n);
    if n > 0 {
        lemma_place_found(sel, id, n - 1);
        if exists|i: int| 0 <= i < n && (#[trigger] sel[i]).id == id {
            let i = choose|i: int| 0 <= i < n && (#[trigger] sel[i]).id == id;
            if i < n - 1 {
                assert(place(sel, id, n - 1) is Some);
            }
        }
    }
}

proof fn lemma_distinct_means<F>(sel: Seq<&NodeDescriptor<F>>, n: int)
    requires
        0 <= n <= sel.len(),
    ensures
        distinct(sel, n) <==> forall|a: int, b: int|
            0 <= a < b < n ==> (#[trigger] sel[a]).id != (#[trigger] sel[b]).id,
    decreases n,
{
    if n > 0 {
        lemma_distinct_means(sel, n - 1);
        lemma_place_found(sel, sel[n - 1].id, n - 1);
        if !distinct(sel, n) && distinct(sel, n - 1) {
            let i = choose|i: int| 0 <= i < n - 1 && (#[trigger] sel[i]).id == sel[n - 1].id;
            assert(sel[i].id == sel[n - 1].id);
        }
    }
}

/// Every other machine has an address on the subnet of this one.
pub open spec fn met_by_all<F>(sel: Seq<&NodeDescriptor<F>>, h: int, a: NodeAddress) -> bool {
    forall|x: int|
        0 <= x < sel.len() && x != h ==> exists|j: int|
            0 <= j < (#[trigger] sel[x]).addresses@.len() && shares(
                a,
                #[trigger] sel[x].addresses@[j],
            )
}

/// At `m` stands the best link that all the other machines are on; or, where
/// they are all on none, the best link.
pub open spec fn is_meeting_point<F>(
    sel: Seq<&NodeDescriptor<F>>,
    h: int,
    ours: Seq<NodeAddress>,
    m: int,
) -> bool {
    &&& 0 <= m < ours.len()
    &&& carries(ours[m].class)
    &&& forall|j: int|
        0 <= j < ours.len() && carries((#[trigger] ours[j]).class) ==> {
            &&& met_by_all(sel, h, ours[j]) ==> met_by_all(sel, h, ours[m])
            &&& met_by_all(sel, h, ours[j]) || !met_by_all(sel, h, ours[m]) ==> no_better(
                ours[m],
                ours[j],
            )
        }
}

/// Law: the ranks meet on the head's best link that every other machine is
/// on; where there is no such link, on its best link. Each rank is told the
/// recipe and its revision, how many there are, and where to meet; the ranks
/// after the head's are in the order in which their machines were selected.
pub proof fn law_the_ranks_meet_where_all_can<F>(
    recipe: Seq<char>,
    hash: Seq<char>,
    required: u32,
    sel: Seq<&NodeDescriptor<F>>,
    head: NodeId,
    settings: Seq<(String, SettingValue)>,
    epoch: Seq<char>,
    p: ClusterPlan,
    h: int,
)
    requires
        planned(
            recipe,
            hash,
            required,
            sel,
            head,
            settings,
            epoch,
            Ok::<ClusterPlan, PlanError>(p),
        ),
        0 <= h < sel.len(),
        sel[h].id == head,
    ensures
        p.epoch@ == epoch,
        exists|m: int| #[trigger]
            is_meeting_point(sel, h, sel[h].addresses@, m) && forall|k: int|
                0 <= k < p.ranks@.len() ==> (#[trigger] p.ranks@[k]).master_addr@
                    == sel[h].addresses@[m].addr@,
        forall|k: int|
            0 <= k < p.ranks@.len() ==> (#[trigger] p.ranks@[k]).recipe@ == recipe
                && p.ranks@[k].recipe_hash@ == hash && p.ranks@[k].world_size == sel.len()
                && p.ranks@[k].master_port == 29500 && p.ranks@[k].rank == k
                && p.ranks@[k].settings@ == settings,
        forall|a: int, b: int, x: int, y: int|
            #![trigger p.ranks@[a], p.ranks@[b], sel[x], sel[y]]
            0 < a < b < p.ranks@.len() && 0 <= x < sel.len() && 0 <= y < sel.len()
                && p.ranks@[a].node == sel[x].id && p.ranks@[b].node == sel[y].id ==> x < y,
{
    let n = sel.len() as int;
    let ours = sel[h].addresses@;
    lemma_place_bounds(sel, head, n);
    lemma_place_found(sel, head, n);
    lemma_distinct_means(sel, n);
    let g = place(sel, head, n).unwrap();
    assert(g == h) by {
        if g < h {
            assert(sel[g].id != sel[h].id);
        } else if h < g {
            assert(sel[h].id != sel[g].id);
        }
    }
    assert(fit(*sel[h]));
    let others = worker_addresses(sel, h);
    lemma_meeting_some(ours, others);
    lemma_pick(ours, others, true, ours.len() as int);
    lemma_pick(ours, others, false, ours.len() as int);
    let m = meeting(ours, others).unwrap();
    assert forall|a: NodeAddress| #[trigger] reaches_all(a, others) == met_by_all(sel, h, a) by {
        lemma_met_by_all(sel, h, a);
    }
    assert(carries(ours[m].class));
    assert(is_meeting_point(sel, h, ours, m)) by {
        assert(reaches_all(ours[m], others) == met_by_all(sel, h, ours[m]));
        assert forall|j: int| 0 <= j < ours.len() && carries((#[trigger] ours[j]).class) implies {
            &&& met_by_all(sel, h, ours[j]) ==> met_by_all(sel, h, ours[m])
            &&& met_by_all(sel, h, ours[j]) || !met_by_all(sel, h, ours[m]) ==> no_better(
                ours[m],
                ours[j],
            )
        } by {
            assert(ours[j].class.collective());
            assert(reaches_all(ours[j], others) == met_by_all(sel, h, ours[j]));
        }
    }
    assert forall|a: int, b: int, x: int, y: int|
        #![trigger p.ranks@[a], p.ranks@[b], sel[x], sel[y]]
        0 < a < b < p.ranks@.len() && 0 <= x < sel.len() && 0 <= y < sel.len() && p.ranks@[a].node
            == sel[x].id && p.ranks@[b].node == sel[y].id implies x < y by {
        assert(sel[seat(a, h)].id == sel[x].id);
        assert(sel[seat(b, h)].id == sel[y].id);
        assert(seat(a, h) == x);
        assert(seat(b, h) == y);
    }
}

proof fn lemma_met_by_all<F>(sel: Seq<&NodeDescriptor<F>>, h: int, a: NodeAddress)
    requires
        0 <= h < sel.len(),
    ensures
        reaches_all(a, worker_addresses(sel, h)) == met_by_all(sel, h, a),
{
    let others = worker_addresses(sel, h);
    if reaches_all(a, others) {
        assert forall|x: int| 0 <= x < sel.len() && x != h implies exists|j: int|
            0 <= j < (#[trigger] sel[x]).addresses@.len() && shares(
                a,
                #[trigger] sel[x].addresses@[j],
            ) by {
            let k = if x < h {
                x
            } else {
                x - 1
            };
            assert(seat(k + 1, h) == x);
            assert(reaches(a, others[k]));
            let j = choose|j: int| 0 <= j < others[k].len() && shares(a, #[trigger] others[k][j]);
            assert(shares(a, sel[x].addresses@[j]));
        }
    }
    if met_by_all(sel, h, a) {
        assert forall|k: int| 0 <= k < others.len() implies reaches(a, #[trigger] others[k]) by {
            let x = seat(k + 1, h);
            assert(x != h);
            let j = choose|j: int|
                0 <= j < sel[x].addresses@.len() && shares(a, #[trigger] sel[x].addresses@[j]);
            assert(shares(a, others[k][j]));
        }
    }
}

/// Law: every rank is told the whole: the recipe and the revision of it that
/// the head has, how many ranks there are, and the one port at which they
/// meet; and after the head the machines have their ranks in the order in
/// which they were selected.
pub proof fn law_every_rank_is_told_the_whole<F>(
    recipe: Seq<char>,
    hash: Seq<char>,
    required: u32,
    sel: Seq<&NodeDescriptor<F>>,
    head: NodeId,
    settings: Seq<(String, SettingValue)>,
    epoch: Seq<char>,
    p: ClusterPlan,
    a: int,
    b: int,
    i: int,
    j: int,
)
    requires
        planned(
            recipe,
            hash,
            required,
            sel,
            head,
            settings,
            epoch,
            Ok::<ClusterPlan, PlanError>(p),
        ),
        0 <= a < p.ranks@.len(),
        0 <= b < p.ranks@.len(),
        0 <= i < sel.len(),
        0 <= j < sel.len(),
    ensures
        p.epoch@ == epoch,
        p.ranks@[a].recipe@ == recipe,
        p.ranks@[a].recipe_hash@ == hash,
        p.ranks@[a].world_size == sel.len(),
        p.ranks@[a].master_port == 29500,
        p.ranks@[a].settings@ == settings,
        p.ranks@[a].node == sel[i].id && p.ranks@[b].node == sel[j].id && i < j && sel[i].id != head
            && sel[j].id != head ==> a < b,
{
    let n = sel.len() as int;
    let h = place(sel, head, n).unwrap();
    lemma_place_bounds(sel, head, n);
    lemma_distinct_means(sel, n);
    assert(p.ranks@[a].node == sel[seat(a, h)].id);
    assert(p.ranks@[b].node == sel[seat(b, h)].id);
    assert(sel[h].id == head);
    if p.ranks@[a].node == sel[i].id && p.ranks@[b].node == sel[j].id && i < j && sel[i].id != head
        && sel[j].id != head {
        let x = seat(a, h);
        let y = seat(b, h);
        if x < i {
            assert(sel[x].id != sel[i].id);
        } else if i < x {
            assert(sel[i].id != sel[x].id);
        }
        if y < j {
            assert(sel[y].id != sel[j].id);
        } else if j < y {
            assert(sel[j].id != sel[y].id);
        }
    }
}

/// Law: once every machine has said yes the launch goes ahead, and whoever
/// said no is known with the reason.
pub proof fn law_every_answer_counts(t: PrepareTracker, id: NodeId, why: String)
    ensures
        t.agreed() <==> forall|i: int|
            0 <= i < t.replies@.len() ==> (#[trigger] t.replies@[i]).1 matches Some(
                PrepareReply::Prepared,
            ),
        t.answered() <==> forall|i: int|
            0 <= i < t.replies@.len() ==> !((#[trigger] t.replies@[i]).1 is None),
        who_refused(t.replies@, t.replies@.len() as int).contains((id, why)) <==> exists|i: int|
            0 <= i < t.replies@.len() && #[trigger] t.replies@[i] == (
                id,
                Some(PrepareReply::Refused { reason: why }),
            ),
{
    lemma_refused(t.replies@, id, why, t.replies@.len() as int);
}

proof fn lemma_refused(
    replies: Seq<(NodeId, Option<PrepareReply>)>,
    id: NodeId,
    why: String,
    n: int,
)
    requires
        0 <= n <= replies.len(),
    ensures
        who_refused(replies, n).contains((id, why)) <==> exists|i: int|
            0 <= i < n && #[trigger] replies[i] == (
                id,
                Some(PrepareReply::Refused { reason: why }),
            ),
    decreases n,
{
    if n > 0 {
        lemma_refused(replies, id, why, n - 1);
        let a = who_refused(replies, n - 1);
        let b = who_refused(replies, n);
        let x = (id, why);
        if a.contains(x) {
            let k = choose|k: int| 0 <= k < a.len() && a[k] == x;
            assert(b[k] == x);
        }
        match replies[n - 1].1 {
            Some(PrepareReply::Refused { reason }) => {
                let last = (replies[n - 1].0, reason);
                assert(b == a.push(last));
                assert(b[a.len() as int] == last);
                if b.contains(x) {
                    let k = choose|k: int| 0 <= k < b.len() && b[k] == x;
                    if k < a.len() {
                        assert(a[k] == x);
                    } else {
                        assert(replies[n - 1] == (id, Some(PrepareReply::Refused { reason: why })));
                    }
                }
            },
            _ => {
                assert(b == a);
            },
        }
    }
}

/// Law: a machine's answer is put where the machine stands.
pub proof fn law_an_answer_has_its_place(
    replies: Seq<(NodeId, Option<PrepareReply>)>,
    id: NodeId,
    i: int,
)
    ensures
        0 <= i < replies.len() && replies[i].0 == id && (forall|k: int|
            0 <= k < i ==> (#[trigger] replies[k]).0 != id) ==> answer_place(
            replies,
            id,
            replies.len() as int,
        ) == Some(i),
        (forall|k: int| 0 <= k < replies.len() ==> (#[trigger] replies[k]).0 != id)
            ==> answer_place(replies, id, replies.len() as int) is None,
{
    lemma_first_answer(replies, id, i, replies.len() as int);
}

proof fn lemma_first_answer(
    replies: Seq<(NodeId, Option<PrepareReply>)>,
    id: NodeId,
    i: int,
    n: int,
)
    requires
        0 <= n <= replies.len(),
    ensures
        0 <= i < n && replies[i].0 == id && (forall|k: int|
            0 <= k < i ==> (#[trigger] replies[k]).0 != id) ==> answer_place(replies, id, n)
            == Some(i),
        (forall|k: int| 0 <= k < n ==> (#[trigger] replies[k]).0 != id) ==> answer_place(
            replies,
            id,
            n,
        ) is None,
    decreases n,
{
    if n > 0 {
        lemma_first_answer(replies, id, i, n - 1);
    }
}

/// Law: who cannot plan or take a rank is told why, and by what name.
pub proof fn law_the_operator_is_told_what_is_wrong(e: PlanError, r: RefusalReason)
    ensures
        e matches PlanError::NodeCount { recipe, required, selected } ==> e.told() == "recipe `"@
            + recipe@ + "` needs exactly "@ + text::dec(required as nat) + " nodes, but "@
            + text::dec(selected as nat) + " are selected"@,
        e is DuplicateNode ==> e.told() == "the same machine is selected twice"@,
        e is HeadNotSelected ==> e.told() == "the head must be one of the selected machines"@,
        e matches PlanError::NotPaired { name } ==> e.told() == name@
            + " is not paired with this machine"@,
        e matches PlanError::NotLaunchable { name, reason } ==> e.told() == name@
            + " cannot run models: "@ + reason@,
        e matches PlanError::NoUsableLink { name } ==> e.told() == name@
            + " has no usable network link"@,
        r matches RefusalReason::AlreadyRunning(what) ==> r.told() == "`"@ + what@
            + "` is already running on this node"@,
        r matches RefusalReason::RecipeMismatch { recipe, head, local } ==> r.told() == "recipe `"@
            + recipe@ + "` differs: the head has "@ + head@ + ", this node has "@ + local@
            + "; run the same metralectl on both"@,
{
}

} // verus!
