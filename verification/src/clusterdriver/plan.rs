//! Turning a selection into a plan every rank can be asked about.
//!
//! These are the failures that cost nothing: an unknown recipe, a machine that
//! left the fleet, a machine with no usable link. All of them are found before
//! any rank has been asked to reserve anything.
use crate::cluster::{carries, plan, planned, ClusterPlan, PlanError, SettingValue};
use crate::clusterdriver::{setting_at, ClusterDriver, Pending, Target};
use crate::fabric::NodeAddress;
use crate::fleet::routing::{no_better, Socket};
use crate::fleet::NodeDescriptor;
use crate::node::NodeId;
use crate::rendezvous::{best_reachable, lemma_pick, meeting, reaches, reaches_all};
use crate::text;
use vstd::prelude::*;

verus! {

/// The port shown when neither the operator nor the recipe names one: the
/// serving runtime's own default.
pub const DEFAULT_SERVE_PORT: u16 = 8888;

/// The place of a machine among the first `n` of the fleet.
pub open spec fn find_node<F>(fleet: Seq<NodeDescriptor<F>>, id: NodeId, n: int) -> Option<int>
    decreases n,
{
    if n <= 0 {
        None
    } else {
        match find_node(fleet, id, n - 1) {
            Some(i) => Some(i),
            None => if fleet[n - 1].id == id {
                Some(n - 1)
            } else {
                None
            },
        }
    }
}

proof fn lemma_find_node<F>(fleet: Seq<NodeDescriptor<F>>, id: NodeId, i: int, n: int)
    requires
        0 <= i <= n <= fleet.len(),
        find_node(fleet, id, i) is Some,
    ensures
        find_node(fleet, id, n) == find_node(fleet, id, i),
    decreases n,
{
    if i < n {
        lemma_find_node(fleet, id, i, n - 1);
    }
}

fn node_at<F>(fleet: &Vec<NodeDescriptor<F>>, id: NodeId) -> (r: Option<usize>)
    ensures
        match r {
            Some(i) => i < fleet@.len() && find_node(fleet@, id, fleet@.len() as int) == Some(
                i as int,
            ),
            None => find_node(fleet@, id, fleet@.len() as int) is None,
        },
{
    let mut i: usize = 0;
    while i < fleet.len()
        invariant
            i <= fleet@.len(),
            find_node(fleet@, id, i as int) is None,
        decreases fleet@.len() - i,
    {
        if fleet[i].id == id {
            proof {
                lemma_find_node(fleet@, id, i + 1, fleet@.len() as int);
            }
            return Some(i);
        }
        i += 1;
    }
    None
}

/// The machines that were selected, as far as the fleet knows them.
pub open spec fn selected<'a, F>(fleet: Seq<NodeDescriptor<F>>, nodes: Seq<NodeId>, n: int) -> Seq<
    &'a NodeDescriptor<F>,
>
    decreases n,
{
    if n <= 0 {
        Seq::empty()
    } else {
        match find_node(fleet, nodes[n - 1], fleet.len() as int) {
            Some(i) => selected(fleet, nodes, n - 1).push(&fleet[i]),
            None => selected(fleet, nodes, n - 1),
        }
    }
}

fn select<'a, F>(fleet: &'a Vec<NodeDescriptor<F>>, nodes: &Vec<NodeId>) -> (r: Vec<
    &'a NodeDescriptor<F>,
>)
    ensures
        r@ == selected(fleet@, nodes@, nodes@.len() as int),
{
    let mut out: Vec<&'a NodeDescriptor<F>> = Vec::new();
    let mut i: usize = 0;
    while i < nodes.len()
        invariant
            i <= nodes@.len(),
            out@ == selected(fleet@, nodes@, i as int),
        decreases nodes@.len() - i,
    {
        match node_at(fleet, nodes[i]) {
            Some(k) => out.push(&fleet[k]),
            None => {},
        }
        i += 1;
    }
    out
}

/// How many machines are required: as many as were selected.
pub open spec fn required(n: nat) -> u32 {
    if n > u32::MAX {
        u32::MAX
    } else {
        n as u32
    }
}

/// The addresses of this machine.
pub open spec fn home<F>(fleet: Seq<NodeDescriptor<F>>, n: int) -> Seq<NodeAddress>
    decreases fleet.len() - n,
{
    if n < 0 || n >= fleet.len() {
        Seq::empty()
    } else if fleet[n].is_local {
        fleet[n].addresses@
    } else {
        home(fleet, n + 1)
    }
}

/// Where to reach a machine, as text: its best address from here, not its
/// best address outright. This machine may be attached to only some of the
/// links that the other answers on.
pub open spec fn candidate<F>(fleet: Seq<NodeDescriptor<F>>, i: int) -> Option<Seq<char>> {
    match meeting(fleet[i].addresses@, seq![home(fleet, 0)]) {
        Some(k) => Some(fleet[i].addresses@[k].addr@),
        None => None,
    }
}

/// The address of a machine as text, for the caller to see whether it can be
/// dialled.
pub fn dial_candidate<F>(fleet: &Vec<NodeDescriptor<F>>, i: usize) -> (r: Option<String>)
    requires
        i < fleet@.len(),
    ensures
        crate::bench::job::opt_view(r) == candidate(fleet@, i as int),
{
    let mut k: usize = 0;
    while k < fleet.len()
        invariant
            k <= fleet@.len(),
            i < fleet@.len(),
            home(fleet@, 0) == home(fleet@, k as int),
        decreases fleet@.len() - k,
    {
        if fleet[k].is_local {
            return match best_reachable(&fleet[i].addresses, &fleet[k].addresses) {
                Some(a) => Some(fleet[i].addresses[a].addr.clone()),
                None => None,
            };
        }
        k += 1;
    }
    let nowhere: Vec<NodeAddress> = Vec::new();
    assert(nowhere@ =~= home(fleet@, 0));
    match best_reachable(&fleet[i].addresses, &nowhere) {
        Some(a) => Some(fleet[i].addresses[a].addr.clone()),
        None => None,
    }
}

/// Whether the candidate of a machine can be dialled.
pub open spec fn can_dial(dialable: Seq<bool>, i: int) -> bool {
    0 <= i < dialable.len() && dialable[i]
}

/// Where to reach a rank; nowhere in particular where it is this machine.
pub open spec fn addressed<F>(
    fleet: Seq<NodeDescriptor<F>>,
    dialable: Seq<bool>,
    port: u16,
    i: int,
    r: Result<Option<Socket>, String>,
) -> bool {
    if fleet[i].is_local {
        r == Ok::<Option<Socket>, String>(None)
    } else {
        match candidate(fleet, i) {
            None => r matches Err(why) && why@ == fleet[i].name@ + " has no usable network link"@,
            Some(a) => if can_dial(dialable, i) {
                r matches Ok(Some(s)) && s.ip@ == a && s.port == port
            } else {
                r matches Err(why) && why@ == fleet[i].name@ + " has an address we cannot dial"@
            },
        }
    }
}

fn address_of<F>(
    fleet: &Vec<NodeDescriptor<F>>,
    dialable: &Vec<bool>,
    port: u16,
    i: usize,
) -> (r: Result<Option<Socket>, String>)
    requires
        i < fleet@.len(),
    ensures
        addressed(fleet@, dialable@, port, i as int, r),
{
    if fleet[i].is_local {
        return Ok(None);
    }
    match dial_candidate(fleet, i) {
        None => Err(text::cat2(&fleet[i].name, " has no usable network link")),
        Some(ip) => if i < dialable.len() && dialable[i] {
            Ok(Some(Socket { ip, port }))
        } else {
            Err(text::cat2(&fleet[i].name, " has an address we cannot dial"))
        },
    }
}

/// The first `k` ranks of a plan can be reached, and these are they.
pub open spec fn pinned_down<F>(
    fleet: Seq<NodeDescriptor<F>>,
    dialable: Seq<bool>,
    port: u16,
    p: ClusterPlan,
    targets: Seq<Target>,
    k: int,
) -> bool {
    targets.len() == k && forall|j: int|
        0 <= j < k ==> is_target(fleet, dialable, port, p.ranks@[j], #[trigger] targets[j])
}

/// One rank, resolved to somewhere reachable.
pub open spec fn is_target<F>(
    fleet: Seq<NodeDescriptor<F>>,
    dialable: Seq<bool>,
    port: u16,
    a: crate::cluster::RankAssignment,
    t: Target,
) -> bool {
    &&& t.assignment == a
    &&& find_node(fleet, a.node, fleet.len() as int) matches Some(i) && t.name == fleet[i].name
        && addressed(fleet, dialable, port, i, Ok::<Option<Socket>, String>(t.addr))
}

/// Why a rank cannot be reached.
pub open spec fn is_lost<F>(
    fleet: Seq<NodeDescriptor<F>>,
    dialable: Seq<bool>,
    port: u16,
    a: crate::cluster::RankAssignment,
    why: String,
) -> bool {
    match find_node(fleet, a.node, fleet.len() as int) {
        Some(i) => addressed(fleet, dialable, port, i, Err::<Option<Socket>, String>(why)),
        None => why@ == "the plan named a machine that left the fleet"@,
    }
}

/// The port that the operator set for rank zero.
pub open spec fn operator_port(targets: Seq<Target>, n: int) -> Option<u16>
    decreases targets.len() - n,
{
    if n < 0 || n >= targets.len() {
        None
    } else if targets[n].assignment.rank == 0 {
        let settings = targets[n].assignment.settings@;
        match setting_at(settings, "port"@, settings.len() as int) {
            Some(SettingValue::Int(p)) => if 0 <= p <= u16::MAX {
                Some(p as u16)
            } else {
                None
            },
            _ => None,
        }
    } else {
        operator_port(targets, n + 1)
    }
}

/// The port that rank zero will serve on: what the operator set, else what
/// the recipe pins, else the serving runtime's default. The settings of an
/// assignment hold what the operator changed and nothing else.
pub open spec fn port_for(targets: Seq<Target>, recipe_port: Option<u16>) -> u16 {
    match operator_port(targets, 0) {
        Some(p) => p,
        None => match recipe_port {
            Some(p) => p,
            None => DEFAULT_SERVE_PORT,
        },
    }
}

fn serve_port(targets: &Vec<Target>, recipe_port: Option<u16>) -> (r: u16)
    ensures
        r == port_for(targets@, recipe_port),
{
    let fallback: u16 = match recipe_port {
        Some(p) => p,
        None => DEFAULT_SERVE_PORT,
    };
    let mut i: usize = 0;
    while i < targets.len()
        invariant
            i <= targets@.len(),
            operator_port(targets@, 0) == operator_port(targets@, i as int),
            fallback == (match recipe_port {
                Some(p) => p,
                None => DEFAULT_SERVE_PORT,
            }),
        decreases targets@.len() - i,
    {
        if targets[i].assignment.rank == 0 {
            let settings = &targets[i].assignment.settings;
            let mut k: usize = 0;
            while k < settings.len()
                invariant
                    k <= settings@.len(),
                    i < targets@.len(),
                    targets@[i as int].assignment.rank == 0,
                    settings@ == targets@[i as int].assignment.settings@,
                    operator_port(targets@, 0) == operator_port(targets@, i as int),
                    fallback == (match recipe_port {
                        Some(p) => p,
                        None => DEFAULT_SERVE_PORT,
                    }),
                    setting_at(settings@, "port"@, k as int) is None,
                decreases settings@.len() - k,
            {
                if text::same(&settings[k].0, "port") {
                    proof {
                        lemma_setting_at(settings@, "port"@, k + 1, settings@.len() as int);
                    }
                    return match &settings[k].1 {
                        SettingValue::Int(p) => if 0 <= *p && *p <= 65535 {
                            *p as u16
                        } else {
                            fallback
                        },
                        _ => fallback,
                    };
                }
                k += 1;
            }
            return fallback;
        }
        i += 1;
    }
    fallback
}

proof fn lemma_setting_at(settings: Seq<(String, SettingValue)>, key: Seq<char>, i: int, n: int)
    requires
        0 <= i <= n <= settings.len(),
        setting_at(settings, key, i) is Some,
    ensures
        setting_at(settings, key, n) == setting_at(settings, key, i),
    decreases n,
{
    if i < n {
        lemma_setting_at(settings, key, i, n - 1);
    }
}

/// A launch as it was asked for.
#[derive(Debug)]
pub struct Request {
    pub recipe: String,
    pub nodes: Vec<NodeId>,
    pub head: NodeId,
    pub settings: Vec<(String, SettingValue)>,
    /// The revision of the recipe that this machine has, or why it has none.
    pub hash: Result<String, String>,
    /// The port that the recipe pins.
    pub recipe_port: Option<u16>,
}

/// The plan of a request whose recipe this machine has.
pub open spec fn plan_of<F>(
    fleet: Seq<NodeDescriptor<F>>,
    req: Request,
    epoch: Seq<char>,
    p: Result<ClusterPlan, PlanError>,
) -> bool {
    req.hash matches Ok(hash) && planned(
        req.recipe@,
        hash@,
        required(req.nodes@.len()),
        selected(fleet, req.nodes@, req.nodes@.len() as int),
        req.head,
        req.settings@,
        epoch,
        p,
    )
}

impl ClusterDriver {
    /// What a request comes to.
    pub open spec fn resolves<F>(
        &self,
        fleet: Seq<NodeDescriptor<F>>,
        dialable: Seq<bool>,
        req: Request,
        epoch: Seq<char>,
        r: Result<Pending, String>,
    ) -> bool {
        let n = req.nodes@.len();
        let sel = selected(fleet, req.nodes@, n as int);
        if sel.len() != n {
            r matches Err(why) && why@ == "one of those machines is not in this fleet"@
        } else {
            match req.hash {
                Err(e) => r matches Err(why) && why@ == e@,
                Ok(_) => exists|p: Result<ClusterPlan, PlanError>| #[trigger]
                    plan_of(fleet, req, epoch, p) && self.settled_on(
                        fleet,
                        dialable,
                        req,
                        epoch,
                        p,
                        r,
                    ),
            }
        }
    }

    /// What a plan comes to, once every rank is looked for.
    pub open spec fn settled_on<F>(
        &self,
        fleet: Seq<NodeDescriptor<F>>,
        dialable: Seq<bool>,
        req: Request,
        epoch: Seq<char>,
        p: Result<ClusterPlan, PlanError>,
        r: Result<Pending, String>,
    ) -> bool {
        match p {
            Err(e) => r matches Err(why) && why@ == e.told(),
            Ok(plan) => match r {
                Ok(pending) => {
                    &&& pending.epoch@ == epoch
                    &&& pinned_down(
                        fleet,
                        dialable,
                        self.peer_port,
                        plan,
                        pending.targets@,
                        plan.ranks@.len() as int,
                    )
                    &&& pending.port == port_for(pending.targets@, req.recipe_port)
                },
                Err(why) => exists|k: int, before: Seq<Target>|
                    0 <= k < plan.ranks@.len() && #[trigger] pinned_down(
                        fleet,
                        dialable,
                        self.peer_port,
                        plan,
                        before,
                        k,
                    ) && is_lost(fleet, dialable, self.peer_port, plan.ranks@[k], why),
            },
        }
    }

    /// Resolve a selection, plan, and pin every rank to a reachable address.
    ///
    /// Everything that can fail without side effects fails here. `dialable`
    /// says, for each machine of the fleet, whether the address that
    /// [`dial_candidate`] gives can be dialled.
    pub fn resolve<F>(
        &self,
        fleet: &Vec<NodeDescriptor<F>>,
        dialable: &Vec<bool>,
        req: &Request,
        epoch: &str,
    ) -> (r: Result<Pending, String>)
        ensures
            self.resolves(fleet@, dialable@, *req, epoch@, r),
    {
        let sel = select(fleet, &req.nodes);
        if sel.len() != req.nodes.len() {
            return Err(text::copy("one of those machines is not in this fleet"));
        }
        let hash = match &req.hash {
            Ok(h) => h,
            Err(e) => return Err(e.clone()),
        };
        let n = req.nodes.len();
        let wanted: u32 = if n as u64 > u32::MAX as u64 {
            u32::MAX
        } else {
            n as u32
        };
        let outcome = plan(&req.recipe, hash, wanted, &sel, req.head, &req.settings, epoch);
        let ghost p = outcome;
        assert(wanted == required(req.nodes@.len()));
        assert(plan_of(fleet@, *req, epoch@, p));
        let planned_ok = match outcome {
            Ok(plan) => plan,
            Err(e) => {
                let why = e.message();
                let r = Err(why);
                assert(self.settled_on(fleet@, dialable@, *req, epoch@, p, r));
                return r;
            },
        };
        let ghost plan = planned_ok;
        let mut rest = planned_ok.ranks;
        let mut targets: Vec<Target> = Vec::new();
        assert(rest@ =~= plan.ranks@.subrange(0, plan.ranks@.len() as int));
        while rest.len() > 0
            invariant
                p == Ok::<ClusterPlan, PlanError>(plan),
                req.hash == Ok::<String, String>(*hash),
                selected(fleet@, req.nodes@, req.nodes@.len() as int).len() == req.nodes@.len(),
                plan_of(fleet@, *req, epoch@, p),
                targets@.len() <= plan.ranks@.len(),
                rest@ == plan.ranks@.subrange(targets@.len() as int, plan.ranks@.len() as int),
                pinned_down(
                    fleet@,
                    dialable@,
                    self.peer_port,
                    plan,
                    targets@,
                    targets@.len() as int,
                ),
            decreases rest.len(),
        {
            let ghost k = targets@.len() as int;
            let assignment = rest.remove(0);
            assert(assignment == plan.ranks@[k]);
            assert(rest@ =~= plan.ranks@.subrange(k + 1, plan.ranks@.len() as int));
            let i = match node_at(fleet, assignment.node) {
                Some(i) => i,
                None => {
                    let r = Err(text::copy("the plan named a machine that left the fleet"));
                    assert(pinned_down(fleet@, dialable@, self.peer_port, plan, targets@, k));
                    assert(self.settled_on(fleet@, dialable@, *req, epoch@, p, r));
                    return r;
                },
            };
            match address_of(fleet, dialable, self.peer_port, i) {
                Ok(addr) => {
                    targets.push(Target { assignment, addr, name: fleet[i].name.clone() });
                },
                Err(why) => {
                    let r = Err(why);
                    assert(pinned_down(fleet@, dialable@, self.peer_port, plan, targets@, k));
                    assert(self.settled_on(fleet@, dialable@, *req, epoch@, p, r));
                    return r;
                },
            }
        }
        let port = serve_port(&targets, req.recipe_port);
        let r = Ok(Pending { epoch: text::copy(epoch), port, targets });
        assert(self.settled_on(fleet@, dialable@, *req, epoch@, p, r));
        r
    }
}

/// The link warning of a selection: that of its plan, where there is one.
pub open spec fn warned<F>(
    fleet: Seq<NodeDescriptor<F>>,
    req: Request,
    r: Option<Seq<char>>,
) -> bool {
    match req.hash {
        Err(_) => r is None,
        Ok(_) => exists|p: Result<ClusterPlan, PlanError>| #[trigger]
            plan_of(fleet, req, "preview"@, p) && r == (match p {
                Ok(plan) => crate::bench::job::opt_view(plan.link_warning),
                Err(_) => None,
            }),
    }
}

/// The link warning for a selection, computed the same way the plan does.
pub fn link_warning<F>(fleet: &Vec<NodeDescriptor<F>>, req: &Request) -> (r: Option<String>)
    ensures
        warned(fleet@, *req, crate::bench::job::opt_view(r)),
{
    let sel = select(fleet, &req.nodes);
    let hash = match &req.hash {
        Ok(h) => h,
        Err(_) => return None,
    };
    let n = req.nodes.len();
    let wanted: u32 = if n as u64 > u32::MAX as u64 {
        u32::MAX
    } else {
        n as u32
    };
    let outcome = plan(&req.recipe, hash, wanted, &sel, req.head, &req.settings, "preview");
    let ghost p = outcome;
    assert(wanted == required(req.nodes@.len()));
    assert(plan_of(fleet@, *req, "preview"@, p));
    match outcome {
        Ok(plan) => {
            let r = plan.link_warning;
            assert(warned(fleet@, *req, crate::bench::job::opt_view(r)));
            r
        },
        Err(_) => None,
    }
}

// ---------------------------------------------------------------------------
// Laws
// ---------------------------------------------------------------------------

/// At `j` stands the first setting of that name.
pub open spec fn names_first(
    settings: Seq<(String, SettingValue)>,
    key: Seq<char>,
    j: int,
) -> bool {
    &&& 0 <= j < settings.len()
    &&& settings[j].0@ == key
    &&& forall|k: int| 0 <= k < j ==> (#[trigger] settings[k]).0@ != key
}

/// Law: a cluster serves where its operator said: at the port that the first
/// rank is set to, where that is one; else at the recipe's; else at 8888.
pub proof fn law_a_cluster_serves_where_it_was_told(
    targets: Seq<Target>,
    recipe_port: Option<u16>,
    i: int,
    j: int,
)
    requires
        0 <= i < targets.len(),
        targets[i].assignment.rank == 0,
        forall|k: int| 0 <= k < i ==> (#[trigger] targets[k]).assignment.rank != 0,
    ensures
        ({
            let settings = targets[i].assignment.settings@;
            let otherwise = match recipe_port {
                Some(p) => p as int,
                None => 8888,
            };
            let port = port_for(targets, recipe_port) as int;
            &&& names_first(settings, "port"@, j) ==> match settings[j].1 {
                SettingValue::Int(p) => port == (if 0 <= p <= 65535 {
                    p as int
                } else {
                    otherwise
                }),
                _ => port == otherwise,
            }
            &&& (forall|k: int| 0 <= k < settings.len() ==> (#[trigger] settings[k]).0@ != "port"@)
                ==> port == otherwise
        }),
{
    let settings = targets[i].assignment.settings@;
    lemma_operator_port(targets, 0, i);
    if names_first(settings, "port"@, j) {
        lemma_setting_first(settings, "port"@, j, settings.len() as int);
    }
    if forall|k: int| 0 <= k < settings.len() ==> (#[trigger] settings[k]).0@ != "port"@ {
        lemma_no_setting(settings, "port"@, settings.len() as int);
    }
}

proof fn lemma_operator_port(targets: Seq<Target>, from: int, i: int)
    requires
        0 <= from <= i < targets.len(),
        targets[i].assignment.rank == 0,
        forall|k: int| 0 <= k < i ==> (#[trigger] targets[k]).assignment.rank != 0,
    ensures
        operator_port(targets, from) == operator_port(targets, i),
    decreases i - from,
{
    if from < i {
        lemma_operator_port(targets, from + 1, i);
    }
}

proof fn lemma_setting_first(
    settings: Seq<(String, SettingValue)>,
    key: Seq<char>,
    j: int,
    n: int,
)
    requires
        names_first(settings, key, j),
        0 <= n <= settings.len(),
    ensures
        setting_at(settings, key, n) == (if j < n {
            Some(settings[j].1)
        } else {
            None
        }),
    decreases n,
{
    if n > 0 {
        lemma_setting_first(settings, key, j, n - 1);
    }
}

proof fn lemma_no_setting(settings: Seq<(String, SettingValue)>, key: Seq<char>, n: int)
    requires
        0 <= n <= settings.len(),
        forall|k: int| 0 <= k < settings.len() ==> (#[trigger] settings[k]).0@ != key,
    ensures
        setting_at(settings, key, n) is None,
    decreases n,
{
    if n > 0 {
        lemma_no_setting(settings, key, n - 1);
    }
}

/// The machine of that identity stands at `i`, and at no place before it.
pub open spec fn stands_at<F>(fleet: Seq<NodeDescriptor<F>>, id: NodeId, i: int) -> bool {
    &&& 0 <= i < fleet.len()
    &&& fleet[i].id == id
    &&& forall|k: int| 0 <= k < i ==> (#[trigger] fleet[k]).id != id
}

/// Law: a machine is found in the fleet exactly where it stands in it.
pub proof fn law_a_machine_is_found_where_it_stands<F>(
    fleet: Seq<NodeDescriptor<F>>,
    id: NodeId,
    i: int,
)
    ensures
        find_node(fleet, id, fleet.len() as int) == Some(i) <==> stands_at(fleet, id, i),
        find_node(fleet, id, fleet.len() as int) is None <==> forall|k: int|
            0 <= k < fleet.len() ==> (#[trigger] fleet[k]).id != id,
{
    lemma_node_stands(fleet, id, fleet.len() as int);
    let found = find_node(fleet, id, fleet.len() as int);
    if stands_at(fleet, id, i) {
        assert(fleet[i].id == id);
        assert(found is Some);
        let j = found.unwrap();
        if j < i {
            assert(fleet[j].id != id);
        } else if i < j {
            assert(fleet[i].id != id);
        }
    }
}

proof fn lemma_node_stands<F>(fleet: Seq<NodeDescriptor<F>>, id: NodeId, n: int)
    requires
        0 <= n <= fleet.len(),
    ensures
        match find_node(fleet, id, n) {
            Some(i) => 0 <= i < n && stands_at(fleet, id, i),
            None => forall|k: int| 0 <= k < n ==> (#[trigger] fleet[k]).id != id,
        },
    decreases n,
{
    if n > 0 {
        lemma_node_stands(fleet, id, n - 1);
    }
}

/// Law: whoever was asked for takes part. Where every machine that was named
/// is in the fleet, those that are planned for are these, in the order in
/// which they were named; where one is not, there are fewer.
pub proof fn law_whoever_was_named_is_selected<'a, F>(
    fleet: Seq<NodeDescriptor<F>>,
    nodes: Seq<NodeId>,
    k: int,
)
    ensures
        ({
            let s = selected::<'a, F>(fleet, nodes, nodes.len() as int);
            &&& s.len() <= nodes.len()
            &&& s.len() == nodes.len() <==> forall|j: int|
                0 <= j < nodes.len() ==> is_known(fleet, #[trigger] nodes[j])
            &&& s.len() == nodes.len() && 0 <= k < nodes.len() ==> s[k].id == nodes[k]
        }),
{
    lemma_selected::<F>(fleet, nodes, nodes.len() as int);
}

/// A machine of that identity is in the fleet.
pub open spec fn is_known<F>(fleet: Seq<NodeDescriptor<F>>, id: NodeId) -> bool {
    exists|i: int| 0 <= i < fleet.len() && (#[trigger] fleet[i]).id == id
}

proof fn lemma_selected<'a, F>(fleet: Seq<NodeDescriptor<F>>, nodes: Seq<NodeId>, n: int)
    requires
        0 <= n <= nodes.len(),
    ensures
        selected::<'a, F>(fleet, nodes, n).len() <= n,
        selected::<'a, F>(fleet, nodes, n).len() == n <==> forall|j: int|
            0 <= j < n ==> is_known(fleet, #[trigger] nodes[j]),
        selected::<'a, F>(fleet, nodes, n).len() == n ==> forall|k: int|
            0 <= k < n ==> (#[trigger] selected::<'a, F>(fleet, nodes, n)[k]).id == nodes[k],
    decreases n,
{
    if n > 0 {
        lemma_selected::<F>(fleet, nodes, n - 1);
        lemma_node_stands(fleet, nodes[n - 1], fleet.len() as int);
        let front = selected::<'a, F>(fleet, nodes, n - 1);
        let s = selected::<'a, F>(fleet, nodes, n);
        match find_node(fleet, nodes[n - 1], fleet.len() as int) {
            Some(i) => {
                assert(fleet[i].id == nodes[n - 1]);
                assert(is_known(fleet, nodes[n - 1]));
                assert(s == front.push(&fleet[i]));
                if s.len() == n {
                    assert forall|k: int| 0 <= k < n implies (#[trigger] s[k]).id == nodes[k] by {
                        if k < n - 1 {
                            assert(s[k] == front[k]);
                        }
                    }
                }
            },
            None => {
                assert(!is_known(fleet, nodes[n - 1]));
            },
        }
    }
}

/// Law: a rank that runs here is not dialled, and any other is dialled at one
/// of its own addresses that can carry a collective, at the port where peers
/// listen: at one on this machine's subnet where there is one such, and at
/// none that is worse than another it could have been.
pub proof fn law_a_rank_is_dialled_at_its_best_address<F>(
    fleet: Seq<NodeDescriptor<F>>,
    dialable: Seq<bool>,
    port: u16,
    a: crate::cluster::RankAssignment,
    t: Target,
    i: int,
    h: int,
)
    requires
        is_target(fleet, dialable, port, a, t),
        stands_at(fleet, a.node, i),
        0 <= h < fleet.len(),
        fleet[h].is_local,
        forall|k: int| 0 <= k < h ==> !(#[trigger] fleet[k]).is_local,
    ensures
        t.assignment == a,
        t.name == fleet[i].name,
        t.addr is None <==> fleet[i].is_local,
        t.addr matches Some(s) ==> s.port == port && 0 <= i < dialable.len() && dialable[i]
            && exists|m: int| #[trigger]
            is_way_to(fleet[i].addresses@, fleet[h].addresses@, m) && s.ip@
                == fleet[i].addresses@[m].addr@,
{
    law_a_machine_is_found_where_it_stands(fleet, a.node, i);
    lemma_home(fleet, 0, h);
    if !fleet[i].is_local {
        lemma_way(fleet[i].addresses@, fleet[h].addresses@);
        let m = meeting(fleet[i].addresses@, seq![fleet[h].addresses@]).unwrap();
        assert(is_way_to(fleet[i].addresses@, fleet[h].addresses@, m));
    }
}

/// At `m` stands the address to reach a machine at: it can carry a collective,
/// it is on the caller's subnet where any such is, and of those that could
/// stand there none is better.
pub open spec fn is_way_to(theirs: Seq<NodeAddress>, ours: Seq<NodeAddress>, m: int) -> bool {
    &&& 0 <= m < theirs.len()
    &&& carries(theirs[m].class)
    &&& if exists|k: int|
        0 <= k < theirs.len() && carries((#[trigger] theirs[k]).class) && reaches(
            theirs[k],
            ours,
        ) {
        &&& reaches(theirs[m], ours)
        &&& forall|k: int|
            0 <= k < theirs.len() && carries((#[trigger] theirs[k]).class) && reaches(
                theirs[k],
                ours,
            ) ==> no_better(theirs[m], theirs[k])
    } else {
        forall|k: int|
            0 <= k < theirs.len() && carries((#[trigger] theirs[k]).class) ==> no_better(
                theirs[m],
                theirs[k],
            )
    }
}

proof fn lemma_way(theirs: Seq<NodeAddress>, ours: Seq<NodeAddress>)
    ensures
        meeting(theirs, seq![ours]) matches Some(m) ==> is_way_to(theirs, ours, m),
{
    let others = seq![ours];
    assert(others[0] == ours);
    lemma_pick(theirs, others, true, theirs.len() as int);
    lemma_pick(theirs, others, false, theirs.len() as int);
    assert forall|k: int| 0 <= k < theirs.len() implies reaches_all(
        #[trigger] theirs[k],
        others,
    ) == reaches(theirs[k], ours) by {
        if reaches_all(theirs[k], others) {
            assert(reaches(theirs[k], others[0]));
        }
    }
}

proof fn lemma_home<F>(fleet: Seq<NodeDescriptor<F>>, from: int, h: int)
    requires
        0 <= from <= h < fleet.len(),
        fleet[h].is_local,
        forall|k: int| 0 <= k < h ==> !(#[trigger] fleet[k]).is_local,
    ensures
        home(fleet, from) == fleet[h].addresses@,
    decreases h - from,
{
    if from < h {
        lemma_home(fleet, from + 1, h);
    }
}

/// Law: a request for a machine that is not in the fleet, or for a recipe that
/// could not be read, is refused and says so; what is planned is held under
/// the epoch that it was planned under.
pub proof fn law_a_request_is_refused_before_anything<F>(
    d: ClusterDriver,
    fleet: Seq<NodeDescriptor<F>>,
    dialable: Seq<bool>,
    req: Request,
    epoch: Seq<char>,
    r: Result<Pending, String>,
    j: int,
)
    requires
        d.resolves(fleet, dialable, req, epoch, r),
    ensures
        0 <= j < req.nodes@.len() && !is_known(fleet, req.nodes@[j]) ==> (r matches Err(why)
            && why@ == "one of those machines is not in this fleet"@),
        req.hash is Err ==> r is Err,
        r matches Ok(p) ==> p.epoch@ == epoch && p.port == port_for(p.targets@, req.recipe_port),
{
    law_whoever_was_named_is_selected::<F>(fleet, req.nodes@, j);
}

} // verus!
