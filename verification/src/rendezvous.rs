//! Which of a machine's links others can meet it on.
use crate::fabric::{known_speed, NodeAddress};
use crate::net::{on_one_subnet, shares};
use vstd::prelude::*;

verus! {

/// An address that is preferred to another.
pub open spec fn better(a: NodeAddress, b: NodeAddress) -> bool {
    a.class.standing() > b.class.standing() || (a.class.standing() == b.class.standing()
        && known_speed(a.speed_mbps) > known_speed(b.speed_mbps))
}

fn is_better(a: &NodeAddress, b: &NodeAddress) -> (r: bool)
    ensures
        r == better(*a, *b),
{
    let sa: u32 = match a.speed_mbps {
        Some(n) => n,
        None => 0,
    };
    let sb: u32 = match b.speed_mbps {
        Some(n) => n,
        None => 0,
    };
    let ra = a.class.rank();
    let rb = b.class.rank();
    ra > rb || (ra == rb && sa > sb)
}

/// Some address of a machine is on a subnet of another's.
pub open spec fn reaches(a: NodeAddress, theirs: Seq<NodeAddress>) -> bool {
    exists|j: int| 0 <= j < theirs.len() && shares(a, #[trigger] theirs[j])
}

/// Every one of some machines is on the subnet of an address.
pub open spec fn reaches_all(a: NodeAddress, others: Seq<Seq<NodeAddress>>) -> bool {
    forall|k: int| 0 <= k < others.len() ==> reaches(a, #[trigger] others[k])
}

/// The place, among the first `n`, of the best address that can carry a
/// collective; the first of equals. With `shared`, only of those that all the
/// others can reach.
pub open spec fn pick(
    addrs: Seq<NodeAddress>,
    others: Seq<Seq<NodeAddress>>,
    shared: bool,
    n: int,
) -> Option<int>
    decreases n,
{
    if n <= 0 {
        None
    } else {
        let best = pick(addrs, others, shared, n - 1);
        let a = addrs[n - 1];
        if a.class.collective() && (shared ==> reaches_all(a, others)) && (best is None || better(
            a,
            addrs[best.unwrap()],
        )) {
            Some(n - 1)
        } else {
            best
        }
    }
}

/// Where others meet a machine: on its best link that all of them are on, and
/// on its best link where there is none such, or the subnets are not known.
pub open spec fn meeting(addrs: Seq<NodeAddress>, others: Seq<Seq<NodeAddress>>) -> Option<int> {
    match pick(addrs, others, true, addrs.len() as int) {
        Some(i) => Some(i),
        None => pick(addrs, others, false, addrs.len() as int),
    }
}

fn can_reach(a: &NodeAddress, theirs: &Vec<NodeAddress>) -> (r: bool)
    ensures
        r == reaches(*a, theirs@),
{
    let mut j: usize = 0;
    while j < theirs.len()
        invariant
            j <= theirs@.len(),
            forall|k: int| 0 <= k < j ==> !shares(*a, #[trigger] theirs@[k]),
        decreases theirs@.len() - j,
    {
        if on_one_subnet(a, &theirs[j]) {
            return true;
        }
        j += 1;
    }
    false
}

/// The addresses behind references.
pub open spec fn lists(others: Seq<&Vec<NodeAddress>>) -> Seq<Seq<NodeAddress>> {
    others.map_values(|v: &Vec<NodeAddress>| v@)
}

fn can_reach_all(a: &NodeAddress, others: &Vec<&Vec<NodeAddress>>) -> (r: bool)
    ensures
        r == reaches_all(*a, lists(others@)),
{
    let mut k: usize = 0;
    while k < others.len()
        invariant
            k <= others@.len(),
            forall|i: int| 0 <= i < k ==> reaches(*a, #[trigger] lists(others@)[i]),
        decreases others@.len() - k,
    {
        assert(lists(others@)[k as int] == others@[k as int]@);
        if !can_reach(a, others[k]) {
            return false;
        }
        k += 1;
    }
    true
}

fn find(addrs: &Vec<NodeAddress>, others: &Vec<&Vec<NodeAddress>>, shared: bool) -> (r: Option<
    usize,
>)
    ensures
        match r {
            Some(i) => i < addrs@.len() && pick(
                addrs@,
                lists(others@),
                shared,
                addrs@.len() as int,
            ) == Some(i as int),
            None => pick(addrs@, lists(others@), shared, addrs@.len() as int) is None,
        },
{
    let mut best: Option<usize> = None;
    let mut i: usize = 0;
    while i < addrs.len()
        invariant
            i <= addrs@.len(),
            match best {
                Some(b) => b < i && pick(addrs@, lists(others@), shared, i as int) == Some(
                    b as int,
                ),
                None => pick(addrs@, lists(others@), shared, i as int) is None,
            },
        decreases addrs@.len() - i,
    {
        let a = &addrs[i];
        if a.class.usable_for_cluster() && (!shared || can_reach_all(a, others)) {
            let wins = match best {
                Some(b) => is_better(a, &addrs[b]),
                None => true,
            };
            if wins {
                best = Some(i);
            }
        }
        i += 1;
    }
    best
}

/// Where others meet a machine.
pub fn meet(addrs: &Vec<NodeAddress>, others: &Vec<&Vec<NodeAddress>>) -> (r: Option<usize>)
    ensures
        match r {
            Some(i) => i < addrs@.len() && meeting(addrs@, lists(others@)) == Some(i as int),
            None => meeting(addrs@, lists(others@)) is None,
        },
{
    match find(addrs, others, true) {
        Some(i) => Some(i),
        None => find(addrs, others, false),
    }
}

/// The best of a machine's addresses as seen from another: on a link that the
/// other is on, where it is on one.
pub fn best_reachable(theirs: &Vec<NodeAddress>, mine: &Vec<NodeAddress>) -> (r: Option<usize>)
    ensures
        match r {
            Some(i) => i < theirs@.len() && meeting(theirs@, seq![mine@]) == Some(i as int),
            None => meeting(theirs@, seq![mine@]) is None,
        },
{
    let mut others: Vec<&Vec<NodeAddress>> = Vec::new();
    others.push(mine);
    assert(lists(others@) =~= seq![mine@]);
    meet(theirs, &others)
}

// ---------------------------------------------------------------------------
// Laws
// ---------------------------------------------------------------------------

/// What is picked is among those that can be, and none of them is better.
pub proof fn lemma_pick(addrs: Seq<NodeAddress>, others: Seq<Seq<NodeAddress>>, shared: bool, n: int)
    requires
        0 <= n <= addrs.len(),
    ensures
        pick(addrs, others, shared, n) matches Some(i) ==> 0 <= i < n
            && addrs[i].class.collective() && (shared ==> reaches_all(addrs[i], others)) && forall|
            j: int,
        |
            0 <= j < n && (#[trigger] addrs[j]).class.collective() && (shared ==> reaches_all(
                addrs[j],
                others,
            )) ==> !better(addrs[j], addrs[i]),
        pick(addrs, others, shared, n) is None ==> forall|j: int|
            0 <= j < n ==> !((#[trigger] addrs[j]).class.collective() && (shared ==> reaches_all(
                addrs[j],
                others,
            ))),
    decreases n,
{
    if n > 0 {
        lemma_pick(addrs, others, shared, n - 1);
    }
}

/// Whether there is a meeting point does not depend on whom it is with.
pub proof fn lemma_meeting_exists(
    addrs: Seq<NodeAddress>,
    some: Seq<Seq<NodeAddress>>,
    others: Seq<Seq<NodeAddress>>,
)
    requires
        meeting(addrs, some) is Some,
    ensures
        meeting(addrs, others) matches Some(i) && 0 <= i < addrs.len(),
{
    let n = addrs.len() as int;
    lemma_pick(addrs, some, true, n);
    lemma_pick(addrs, some, false, n);
    lemma_pick(addrs, others, true, n);
    lemma_pick(addrs, others, false, n);
    let i = meeting(addrs, some).unwrap();
    assert(addrs[i].class.collective());
}

/// Law: where some link that can carry a collective is shared by everyone,
/// the meeting point is on such a link, and on the best of them; and there is
/// a meeting point whenever the machine has any link that can carry one.
pub proof fn law_the_meeting_point_is_shared_when_it_can_be(
    addrs: Seq<NodeAddress>,
    others: Seq<Seq<NodeAddress>>,
    j: int,
)
    requires
        0 <= j < addrs.len(),
        addrs[j].class.collective(),
    ensures
        meeting(addrs, others) matches Some(i) && 0 <= i < addrs.len()
            && addrs[i].class.collective(),
        reaches_all(addrs[j], others) ==> reaches_all(
            addrs[meeting(addrs, others).unwrap()],
            others,
        ) && !better(addrs[j], addrs[meeting(addrs, others).unwrap()]),
{
    lemma_pick(addrs, others, true, addrs.len() as int);
    lemma_pick(addrs, others, false, addrs.len() as int);
}

/// Law: of links that are equally good the first is met on: every one before
/// it that could have been is worse.
pub proof fn law_the_first_of_equal_links_is_met_on(
    addrs: Seq<NodeAddress>,
    others: Seq<Seq<NodeAddress>>,
    shared: bool,
    i: int,
    j: int,
)
    requires
        pick(addrs, others, shared, addrs.len() as int) == Some(i),
        0 <= j < i,
        addrs[j].class.collective(),
        shared ==> reaches_all(addrs[j], others),
    ensures
        addrs[i].class.standing() > addrs[j].class.standing() || (addrs[i].class.standing()
            == addrs[j].class.standing() && (addrs[i].speed_mbps matches Some(m) && m > 0 && (
        addrs[j].speed_mbps matches Some(k) ==> k < m))),
{
    lemma_pick(addrs, others, shared, addrs.len() as int);
    lemma_pick_first(addrs, others, shared, j, addrs.len() as int);
}

proof fn lemma_pick_first(
    addrs: Seq<NodeAddress>,
    others: Seq<Seq<NodeAddress>>,
    shared: bool,
    j: int,
    n: int,
)
    requires
        0 <= j < n <= addrs.len(),
        addrs[j].class.collective(),
        shared ==> reaches_all(addrs[j], others),
    ensures
        pick(addrs, others, shared, n) matches Some(i) && (j < i ==> better(addrs[i], addrs[j])),
    decreases n,
{
    lemma_pick(addrs, others, shared, n - 1);
    if j < n - 1 {
        lemma_pick_first(addrs, others, shared, j, n - 1);
    }
}

} // verus!
