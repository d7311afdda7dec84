//! How a control request reaches another machine.
//!
//! Where a request would go is answered from this agent's own state and
//! nothing else. An address that another machine claims is display data: a
//! machine that is only vouched for is reached through its voucher, and a
//! paired machine only at an address that this agent's own reports or pins
//! hold.
use crate::bench::event::copy_opt;
use crate::error::AgentError;
use crate::fabric::{known_speed, NodeAddress};
use crate::fleet::LocalFleet;
use crate::identity::{Pin, PinsRead, PinStore, read_pins};
use crate::node::{lookup, NodeId};
use crate::text;
use vstd::prelude::*;

verus! {

/// An address and a port.
#[derive(Debug, Clone, PartialEq, Eq)]
pub struct Socket {
    pub ip: String,
    pub port: u16,
}

/// Where a control request for a machine would go.
#[derive(Debug, Clone, PartialEq, Eq)]
pub enum ControlRoute {
    /// The machine is paired: dial it.
    Direct { addr: Socket },
    /// The machine is only vouched for: ask its voucher to pass the request
    /// on. The address is the voucher's.
    Via { relay: NodeId, addr: Socket },
}

/// An address that is preferred to another, or is as good.
pub open spec fn as_good(a: NodeAddress, b: NodeAddress) -> bool {
    a.class.standing() > b.class.standing() || (a.class.standing() == b.class.standing()
        && known_speed(a.speed_mbps) >= known_speed(b.speed_mbps))
}

/// The place, among the first `n`, of the best address; the last of equals.
pub open spec fn best_address(addrs: Seq<NodeAddress>, n: int) -> Option<int>
    decreases n,
{
    if n <= 0 {
        None
    } else {
        match best_address(addrs, n - 1) {
            Some(b) => if as_good(addrs[n - 1], addrs[b]) {
                Some(n - 1)
            } else {
                Some(b)
            },
            None => Some(n - 1),
        }
    }
}

fn find_best(addrs: &Vec<NodeAddress>) -> (r: Option<usize>)
    ensures
        match r {
            Some(i) => i < addrs@.len() && best_address(addrs@, addrs@.len() as int) == Some(
                i as int,
            ),
            None => addrs@.len() == 0,
        },
{
    let mut best: Option<usize> = None;
    let mut i: usize = 0;
    while i < addrs.len()
        invariant
            i <= addrs@.len(),
            match best {
                Some(b) => b < i && best_address(addrs@, i as int) == Some(b as int),
                None => i == 0,
            },
        decreases addrs@.len() - i,
    {
        let better = match best {
            Some(b) => {
                let ra = addrs[i].class.rank();
                let rb = addrs[b].class.rank();
                let sa: u32 = match addrs[i].speed_mbps {
                    Some(n) => n,
                    None => 0,
                };
                let sb: u32 = match addrs[b].speed_mbps {
                    Some(n) => n,
                    None => 0,
                };
                ra > rb || (ra == rb && sa >= sb)
            },
            None => true,
        };
        if better {
            best = Some(i);
        }
        i += 1;
    }
    best
}

/// Where to reach one paired machine: its address, and the port it
/// advertised.
#[derive(Debug, Clone, PartialEq, Eq)]
pub struct PeerDial {
    /// The address to dial: that of a live sighting first, else the pin's.
    pub addr: String,
    /// The machine's own port, when it is announcing.
    pub port: Option<u16>,
}

/// Why a machine cannot be reached.
pub open spec fn unroutable(r: Result<ControlRoute, AgentError>, target: NodeId, why: Seq<char>) -> bool {
    r matches Err(AgentError::NotRoutable { node, reason }) && node == target && reason@ == why
}

impl<F: Copy> LocalFleet<F> {
    /// The address in this agent's own report of a machine, or in its pin.
    pub open spec fn own_address(&self, pins: Seq<(NodeId, Pin)>, node: NodeId) -> Option<
        Seq<char>,
    > {
        match self.reported_address(node) {
            Some(a) => Some(a),
            None => match lookup(pins, node) {
                Some(pin) => match pin.last_address {
                    Some(a) => Some(a@),
                    None => None,
                },
                None => None,
            },
        }
    }

    /// The best address in this agent's own report of a machine.
    pub open spec fn reported_address(&self, node: NodeId) -> Option<Seq<char>> {
        match self.reports.at(node) {
            Some((r, _)) => match best_address(r.addresses@, r.addresses@.len() as int) {
                Some(i) => Some(r.addresses@[i].addr@),
                None => None,
            },
            None => None,
        }
    }

    /// The best address this agent itself knows for a paired machine: from
    /// its live report by link and speed, else the pin's. No other machine's
    /// word contributes to it.
    pub fn control_address(&self, pins: &PinsRead, node: NodeId) -> (r: Option<String>)
        ensures
            crate::bench::job::opt_view(r) == self.own_address(read_pins(*pins), node),
    {
        match self.reports.get(node) {
            Some(r) => match find_best(&r.0.addresses) {
                Some(i) => return Some(r.0.addresses[i].addr.clone()),
                None => {},
            },
            None => {},
        }
        match pins {
            Ok(store) => match store.pins.get(node) {
                Some(pin) => copy_opt(&pin.last_address),
                None => None,
            },
            Err(_) => {
                proof {
                    crate::node::lemma_lookup_absent(read_pins(*pins), node);
                }
                None
            },
        }
    }

    /// The highest version of the peer protocol that a machine has advertised
    /// over the authenticated channel, when it has been heard from.
    pub open spec fn version_of(&self, node: NodeId) -> Option<u32> {
        match self.reports.at(node) {
            Some((r, _)) => Some(r.peer_version_max),
            None => None,
        }
    }

    /// The highest version of the peer protocol that a machine has advertised
    /// over the authenticated channel, when it has been heard from.
    pub fn peer_version_max(&self, node: NodeId) -> (r: Option<u32>)
        ensures
            r == self.version_of(node),
    {
        match self.reports.get(node) {
            Some(r) => Some(r.0.peer_version_max),
            None => None,
        }
    }

    /// The machine that would be dialled for a request to another: the
    /// machine itself where it is paired, else its voucher.
    pub open spec fn next_hop(&self, pins: Seq<(NodeId, Pin)>, target: NodeId) -> Option<NodeId> {
        if lookup(pins, target) is Some {
            Some(target)
        } else {
            self.route_of(target)
        }
    }

    /// The address that a request would be sent to, as text. Whether it can
    /// be dialled is asked of [`LocalFleet::plan_control_route`].
    pub fn route_candidate(&self, pins: &PinsRead, target: NodeId) -> (r: Option<String>)
        ensures
            crate::bench::job::opt_view(r) == (match self.next_hop(read_pins(*pins), target) {
                Some(hop) => self.own_address(read_pins(*pins), hop),
                None => None,
            }),
    {
        let pinned = match pins {
            Ok(store) => store.is_pinned(target),
            Err(_) => {
                proof {
                    crate::node::lemma_lookup_absent(read_pins(*pins), target);
                }
                false
            },
        };
        if pinned {
            return self.control_address(pins, target);
        }
        match self.choose_voucher(target) {
            Some(hop) => self.control_address(pins, hop),
            None => None,
        }
    }

    /// The refusal of a next hop that has no control frames.
    pub open spec fn too_old(hop: NodeId, version: u32) -> Seq<char> {
        hop.brief() + " speaks peer protocol "@ + text::dec(version as nat)
            + ", which has no control frames; upgrade it"@
    }

    /// The route that a control request would take.
    pub open spec fn routed(
        &self,
        pins: PinsRead,
        target: NodeId,
        port: u16,
        dialable: bool,
        r: Result<ControlRoute, AgentError>,
    ) -> bool {
        match pins {
            Err(e) => unroutable(
                r,
                target,
                "this agent's pin store could not be read: "@ + e@,
            ),
            Ok(_) => {
                let known = read_pins(pins);
                match self.next_hop(known, target) {
                    None => unroutable(
                        r,
                        target,
                        match self.described(target) {
                            Some(c) => "not paired with this machine, and "@ + c.voucher.brief()
                                + ", which vouches for it, is not answering"@,
                            None =>
                                "not paired with this machine, and no reachable peer vouches for it; pair with it directly"@,
                        },
                    ),
                    Some(hop) => if self.version_of(hop) is Some && self.version_of(hop).unwrap()
                        < 2 {
                        unroutable(r, target, Self::too_old(hop, self.version_of(hop).unwrap()))
                    } else {
                        let addr = self.own_address(known, hop);
                        if addr is None || !dialable {
                            unroutable(
                                r,
                                target,
                                if lookup(known, target) is Some {
                                    "it is paired with this machine but has no known address yet; wait for it to be seen, or re-add it with `metralectl peer add`"@
                                } else {
                                    hop.brief()
                                        + ", which vouches for it, has no known address"@
                                },
                            )
                        } else if lookup(known, target) is Some {
                            r matches Ok(ControlRoute::Direct { addr: s }) && s.ip@
                                == addr.unwrap() && s.port == port
                        } else {
                            r matches Ok(ControlRoute::Via { relay, addr: s }) && relay == hop
                                && s.ip@ == addr.unwrap() && s.port == port
                        }
                    },
                }
            },
        }
    }

    fn refuse_hop(&self, target: NodeId, hop: NodeId) -> (r: Option<AgentError>)
        ensures
            match r {
                Some(e) => self.version_of(hop) is Some && self.version_of(hop).unwrap() < 2 && e
                    is NotRoutable && e->NotRoutable_node == target && e->NotRoutable_reason@
                    == Self::too_old(hop, self.version_of(hop).unwrap()),
                None => self.version_of(hop) is None || self.version_of(hop).unwrap() >= 2,
            },
    {
        match self.peer_version_max(hop) {
            Some(v) => if v < 2 {
                let mut reason = hop.short();
                reason.append(" speaks peer protocol ");
                let digits = text::decimal(v as u64);
                reason.append(&digits);
                reason.append(", which has no control frames; upgrade it");
                Some(AgentError::NotRoutable { node: target, reason })
            } else {
                None
            },
            None => None,
        }
    }

    /// Plan the route a control request for a machine would take, without
    /// dialling anything. `dialable` says whether the address that
    /// [`LocalFleet::route_candidate`] gives is one that can be dialled.
    ///
    /// A machine that is neither paired nor vouched for, a voucher that is
    /// not heard, a machine without a known address, and a next hop too old
    /// for control frames are each refused with what is missing. Pins that
    /// cannot be read route nothing: they must not turn a paired machine into
    /// one that is reached through another.
    pub fn plan_control_route(
        &self,
        pins: &PinsRead,
        target: NodeId,
        port: u16,
        dialable: bool,
    ) -> (r: Result<ControlRoute, AgentError>)
        ensures
            self.routed(*pins, target, port, dialable, r),
    {
        let store: &PinStore = match pins {
            Ok(store) => store,
            Err(e) => {
                let reason = text::cat2("this agent's pin store could not be read: ", e);
                return Err(AgentError::NotRoutable { node: target, reason });
            },
        };
        if store.is_pinned(target) {
            match self.refuse_hop(target, target) {
                Some(e) => return Err(e),
                None => {},
            }
            let found = self.control_address(pins, target);
            return match found {
                Some(ip) => if dialable {
                    Ok(ControlRoute::Direct { addr: Socket { ip, port } })
                } else {
                    Err(no_address(target))
                },
                None => Err(no_address(target)),
            };
        }
        match self.choose_voucher(target) {
            Some(hop) => {
                match self.refuse_hop(target, hop) {
                    Some(e) => return Err(e),
                    None => {},
                }
                let found = self.control_address(pins, hop);
                match found {
                    Some(ip) => if dialable {
                        return Ok(ControlRoute::Via { relay: hop, addr: Socket { ip, port } });
                    },
                    None => {},
                }
                let mut reason = hop.short();
                reason.append(", which vouches for it, has no known address");
                Err(AgentError::NotRoutable { node: target, reason })
            },
            None => {
                let reason = match self.vouch_of(target) {
                    Some(c) => {
                        let brief = c.voucher.short();
                        text::cat3(
                            "not paired with this machine, and ",
                            &brief,
                            ", which vouches for it, is not answering",
                        )
                    },
                    None => text::copy(
                        "not paired with this machine, and no reachable peer vouches for it; pair with it directly",
                    ),
                };
                Err(AgentError::NotRoutable { node: target, reason })
            },
        }
    }

    /// The address and port that a paired machine is dialled on.
    pub open spec fn dialled(&self, id: NodeId, pin: Pin) -> Option<(Seq<char>, Option<u16>)> {
        let port = match self.seen.at(id) {
            Some(s) => Some(s.beacon.peer_port),
            None => None,
        };
        match self.seen.at(id) {
            Some(s) => if s.beacon.addresses@.len() > 0 {
                Some((s.beacon.addresses@[0]@, port))
            } else {
                match pin.last_address {
                    Some(a) => Some((a@, port)),
                    None => None,
                }
            },
            None => match pin.last_address {
                Some(a) => Some((a@, port)),
                None => None,
            },
        }
    }

    /// What the first `n` pins come to.
    pub open spec fn dials(&self, pins: Seq<(NodeId, Pin)>, n: int) -> Seq<
        (NodeId, (Seq<char>, Option<u16>)),
    >
        decreases n,
    {
        if n <= 0 {
            Seq::empty()
        } else {
            match self.dialled(pins[n - 1].0, pins[n - 1].1) {
                Some(d) => self.dials(pins, n - 1).push((pins[n - 1].0, d)),
                None => self.dials(pins, n - 1),
            }
        }
    }

    fn dial_of(&self, id: NodeId, pin: &Pin) -> (r: Option<PeerDial>)
        ensures
            match r {
                Some(d) => self.dialled(id, *pin) == Some((d.addr@, d.port)),
                None => self.dialled(id, *pin) is None,
            },
    {
        match self.seen.get(id) {
            Some(s) => if s.beacon.addresses.len() > 0 {
                Some(
                    PeerDial {
                        addr: s.beacon.addresses[0].clone(),
                        port: Some(s.beacon.peer_port),
                    },
                )
            } else {
                match &pin.last_address {
                    Some(a) => Some(PeerDial { addr: a.clone(), port: Some(s.beacon.peer_port) }),
                    None => None,
                }
            },
            None => match &pin.last_address {
                Some(a) => Some(PeerDial { addr: a.clone(), port: None }),
                None => None,
            },
        }
    }

    /// The paired machines this agent should try to reach, with the address
    /// to use and the port each announced. A machine that is not announcing
    /// offers no port.
    pub fn dialable_peers(&self, store: &PinStore) -> (r: Vec<(NodeId, PeerDial)>)
        ensures
            dial_views(r@) == self.dials(
                store.pins.listing(),
                store.pins.listing().len() as int,
            ),
    {
        let ghost pins = store.pins.listing();
        let n = store.pins.len();
        let mut out: Vec<(NodeId, PeerDial)> = Vec::new();
        let mut i: usize = 0;
        assert(dial_views(out@) =~= self.dials(pins, 0));
        while i < n
            invariant
                i <= n,
                n == pins.len(),
                pins == store.pins.listing(),
                dial_views(out@) == self.dials(pins, i as int),
            decreases n - i,
        {
            let id = store.pins.id_at(i);
            let ghost was = dial_views(out@);
            match self.dial_of(id, store.pins.value_at(i)) {
                Some(d) => {
                    out.push((id, d));
                    assert(dial_views(out@) =~= was.push((id, (d.addr@, d.port))));
                },
                None => {},
            }
            i += 1;
        }
        out
    }

    /// Withdraw trust from a machine; whether there was any. Its claims go
    /// with the pin, so that no route or row survives on the word of a
    /// machine no longer trusted.
    pub fn unpair(&mut self, pins: &mut PinStore, node: NodeId) -> (r: bool)
        ensures
            r == (old(pins).at(node) is Some),
            forall|k: NodeId| #[trigger]
                final(pins).at(k) == (if k == node {
                    None
                } else {
                    old(pins).at(k)
                }),
            *final(self) == (LocalFleet { vouches: final(self).vouches, ..*old(self) }),
            final(self).vouches.listing() == crate::fleet::vouched::kept(
                old(self).vouches.listing(),
                crate::fleet::vouched::not_by::<F>(node),
                old(self).vouches.listing().len() as int,
            ),
    {
        self.clear_vouches(node);
        pins.remove(node)
    }
}

fn no_address(target: NodeId) -> (e: AgentError)
    ensures
        e is NotRoutable,
        e->NotRoutable_node == target,
        e->NotRoutable_reason@
            == "it is paired with this machine but has no known address yet; wait for it to be seen, or re-add it with `metralectl peer add`"@,
{
    AgentError::NotRoutable {
        node: target,
        reason: text::copy(
            "it is paired with this machine but has no known address yet; wait for it to be seen, or re-add it with `metralectl peer add`",
        ),
    }
}

/// The dials, as values.
pub open spec fn dial_views(v: Seq<(NodeId, PeerDial)>) -> Seq<
    (NodeId, (Seq<char>, Option<u16>)),
> {
    v.map_values(|d: (NodeId, PeerDial)| (d.0, (d.1.addr@, d.1.port)))
}

// ---------------------------------------------------------------------------
// Laws
// ---------------------------------------------------------------------------

/// Law: a paired machine is dialled, and one that is not is never dialled
/// itself. The address a request goes to is always this agent's own address
/// of the machine that is dialled, and no claim of another machine enters
/// into it.
pub proof fn law_only_our_own_addresses_are_dialled<F: Copy>(
    f: LocalFleet<F>,
    pins: PinsRead,
    target: NodeId,
    port: u16,
    dialable: bool,
    r: Result<ControlRoute, AgentError>,
)
    requires
        f.routed(pins, target, port, dialable, r),
    ensures
        r matches Ok(ControlRoute::Direct { addr }) ==> lookup(read_pins(pins), target) is Some
            && f.own_address(read_pins(pins), target) == Some(addr.ip@),
        r matches Ok(ControlRoute::Via { relay, addr }) ==> lookup(read_pins(pins), target) is None
            && f.route_of(target) == Some(relay) && f.own_address(read_pins(pins), relay) == Some(
            addr.ip@,
        ),
{
}

/// Law: the list shows exactly the route the router takes. A machine that is
/// listed by a claim is shown as reached through the machine that a request
/// to it goes through.
pub proof fn law_the_list_shows_the_route_taken<F: Copy>(
    f: LocalFleet<F>,
    pins: PinsRead,
    target: NodeId,
    c: crate::fleet::vouched::Claim<F>,
    d: crate::fleet::NodeDescriptor<F>,
    port: u16,
    r: Result<ControlRoute, AgentError>,
)
    requires
        f.vouched_row(target, c, d),
        f.routed(pins, target, port, true, r),
    ensures
        r matches Ok(ControlRoute::Via { relay, addr }) ==> d.reached_via == Some(relay),
        pins is Ok && lookup(read_pins(pins), target) is None && d.reached_via is None ==> r is Err,
{
}

/// Law: pins that cannot be read route nothing.
pub proof fn law_unreadable_pins_route_nothing<F: Copy>(
    f: LocalFleet<F>,
    pins: PinsRead,
    target: NodeId,
    port: u16,
    dialable: bool,
    r: Result<ControlRoute, AgentError>,
)
    requires
        f.routed(pins, target, port, dialable, r),
        pins is Err,
    ensures
        r is Err,
{
}

/// Law: a request goes to the best address. Where the machine that is dialled
/// has reported addresses, the one dialled is among them, and none of them is
/// on a better link, nor on one as good and known to be faster; where it has
/// not, it is the one that its pin holds.
pub proof fn law_a_request_goes_to_the_best_address<F: Copy>(
    f: LocalFleet<F>,
    pins: PinsRead,
    target: NodeId,
    port: u16,
    dialable: bool,
    hop: NodeId,
    to: Socket,
    r: Result<ControlRoute, AgentError>,
)
    requires
        f.routed(pins, target, port, dialable, r),
        r == Ok::<ControlRoute, AgentError>(ControlRoute::Via { relay: hop, addr: to }) || (hop
            == target && r == Ok::<ControlRoute, AgentError>(ControlRoute::Direct { addr: to })),
    ensures
        to.port == port,
        dialable,
        match f.reports.at(hop) {
            Some((report, _)) => {
                &&& report.peer_version_max >= 2
                &&& report.addresses@.len() > 0 ==> exists|i: int|
                    0 <= i < report.addresses@.len() && (#[trigger] report.addresses@[i]).addr@
                        == to.ip@ && best_of(report.addresses@, i)
                &&& report.addresses@.len() == 0 ==> pinned_at(read_pins(pins), hop, to.ip@)
            },
            None => pinned_at(read_pins(pins), hop, to.ip@),
        },
{
    match f.reports.at(hop) {
        Some((report, _)) => {
            let known = report.addresses@;
            lemma_best_address(known, known.len() as int);
            if known.len() > 0 {
                let i = best_address(known, known.len() as int).unwrap();
                assert(known[i].addr@ == to.ip@);
                assert(best_of(known, i));
            }
        },
        None => {},
    }
}

/// The pin of a machine holds this address.
pub open spec fn pinned_at(pins: Seq<(NodeId, Pin)>, node: NodeId, ip: Seq<char>) -> bool {
    lookup(pins, node) matches Some(pin) && pin.last_address matches Some(a) && a@ == ip
}

/// None of the addresses is better than the one at `i`, and none that comes
/// after it is as good.
pub open spec fn best_of(addrs: Seq<NodeAddress>, i: int) -> bool {
    &&& forall|j: int| 0 <= j < addrs.len() ==> no_better(addrs[i], #[trigger] addrs[j])
    &&& forall|j: int| i < j < addrs.len() ==> !no_better(#[trigger] addrs[j], addrs[i])
}

/// `b` is not on a better link than `a`, nor on one as good and known to be
/// faster.
pub open spec fn no_better(a: NodeAddress, b: NodeAddress) -> bool {
    &&& b.class.standing() <= a.class.standing()
    &&& b.class.standing() == a.class.standing() ==> match b.speed_mbps {
        Some(n) => n == 0 || (a.speed_mbps matches Some(m) && n <= m),
        None => true,
    }
}

proof fn lemma_best_address(addrs: Seq<NodeAddress>, n: int)
    requires
        0 <= n <= addrs.len(),
    ensures
        n > 0 ==> (best_address(addrs, n) matches Some(i) && 0 <= i < n && forall|j: int|
            0 <= j < n ==> no_better(addrs[i], #[trigger] addrs[j])),
        n > 0 ==> forall|j: int|
            best_address(addrs, n).unwrap() < j < n ==> !no_better(
                #[trigger] addrs[j],
                addrs[best_address(addrs, n).unwrap()],
            ),
    decreases n,
{
    if n > 0 {
        lemma_best_address(addrs, n - 1);
    }
}

/// Law: a request is routed exactly where it can be: the pins can be read, the
/// machine is paired or somebody who is heard reaches it, the machine that
/// would be dialled speaks a protocol that has control in it, as far as is
/// known, and there is an address of it that can be dialled. A machine that is
/// paired is dialled itself, and only one that is not is reached through
/// another.
pub proof fn law_a_request_is_routed_where_it_can_be<F: Copy>(
    f: LocalFleet<F>,
    pins: PinsRead,
    target: NodeId,
    port: u16,
    dialable: bool,
    r: Result<ControlRoute, AgentError>,
)
    requires
        f.routed(pins, target, port, dialable, r),
    ensures
        ({
            let known = read_pins(pins);
            let paired = lookup(known, target) is Some;
            let hop = if paired {
                Some(target)
            } else {
                f.route_of(target)
            };
            &&& r is Ok <==> pins is Ok && (hop matches Some(h) && dialable && f.own_address(known, h)
                is Some && (f.reports.at(h) matches Some((report, _)) ==> report.peer_version_max
                >= 2))
            &&& r matches Ok(route) ==> (route is Direct <==> paired)
            &&& r matches Err(e) ==> (e matches AgentError::NotRoutable { node, .. } && node
                == target)
        }),
{
}

/// Where a paired machine is dialled, if anywhere.
pub open spec fn where_dialled<F: Copy>(f: LocalFleet<F>) -> spec_fn((NodeId, Pin)) -> Option<
    (NodeId, (Seq<char>, Option<u16>)),
> {
    |p: (NodeId, Pin)|
        match f.dialled(p.0, p.1) {
            Some(d) => Some((p.0, d)),
            None => None,
        }
}

/// Law: every paired machine that there is an address of is dialled, at the
/// first that its beacon names, and else at the one that its pin holds; at the
/// port that its beacon names, where there is one.
pub proof fn law_every_peer_is_dialled_where_it_was_last<F: Copy>(
    f: LocalFleet<F>,
    pins: Seq<(NodeId, Pin)>,
    id: NodeId,
    pin: Pin,
)
    ensures
        f.dials(pins, pins.len() as int) == pins.filter_map(where_dialled(f)),
        f.dialled(id, pin) matches Some((_, port)) ==> port == (match f.seen.at(id) {
            Some(s) => Some(s.beacon.peer_port),
            None => None,
        }),
        f.seen.at(id) matches Some(s) ==> (s.beacon.addresses@.len() > 0 ==> (f.dialled(
            id,
            pin,
        ) matches Some((a, _)) && a == s.beacon.addresses@[0]@)),
        (f.seen.at(id) matches Some(s) ==> s.beacon.addresses@.len() == 0) ==> match pin.last_address {
            Some(a) => f.dialled(id, pin) matches Some((b, _)) && b == a@,
            None => f.dialled(id, pin) is None,
        },
{
    assert(pins.subrange(0, pins.len() as int) =~= pins);
    lemma_dials(f, pins, pins.len() as int);
}

proof fn lemma_dials<F: Copy>(f: LocalFleet<F>, pins: Seq<(NodeId, Pin)>, n: int)
    requires
        0 <= n <= pins.len(),
    ensures
        f.dials(pins, n) == pins.subrange(0, n).filter_map(where_dialled(f)),
    decreases n,
{
    let head = pins.subrange(0, n);
    if n > 0 {
        lemma_dials(f, pins, n - 1);
        assert(head.drop_last() =~= pins.subrange(0, n - 1));
        assert(f.dials(pins, n) =~= head.filter_map(where_dialled(f)));
    } else {
        assert(f.dials(pins, n) =~= head.filter_map(where_dialled(f)));
    }
}

} // verus!
