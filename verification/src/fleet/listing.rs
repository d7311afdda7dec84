//! Turning what this agent knows into the list that people are shown.
//!
//! What is known of a machine comes in four tiers, and the first that knows
//! it decides:
//!
//! 1. A report, which something holding the pinned key made over the
//!    authenticated channel. Its vitals and its link class are evidence.
//! 2. A sighting, which places a machine and nothing more. Its link class is
//!    unverified, and it carries no vitals.
//! 3. A pin with a remembered address, which keeps a paired machine listed
//!    while it is switched off.
//! 4. A claim by another machine, which lists a machine only where none of
//!    the others knows it. Where they do, it adds the name of the voucher and
//!    nothing else.
use crate::bench::event::{copy_opt, copy_strings};
use crate::discovery::Beacon;
use crate::fabric::{address_views, Address, LinkClass, NodeAddress};
use crate::fleet::vouched::{earlier, sorted, Claim};
use crate::fleet::{
    since, Launchability, LocalFleet, NodeDescriptor, NodeVitals, PairingState, PeerReport,
    Sighting, UNREACHABLE_AFTER,
};
use crate::identity::{Pin, PinStore, PinsRead, read_pins};
use crate::name::{display_name, shown};
use crate::node::{ascending, lemma_lookup_entry, lookup, NodeId};
use crate::text;
use vstd::prelude::*;

verus! {

/// What a machine's own answer comes to.
pub open spec fn answers(l: Launchability, can_launch: bool) -> bool {
    &&& l.can_launch == can_launch
    &&& l.reason@ == (if can_launch {
        Seq::empty()
    } else {
        "this node reports it cannot run models"@
    })
}

/// Turn a peer's own answer about itself into a launchability. One function,
/// so that the wording is the same whichever source supplied it.
fn as_launchability(can_launch: bool) -> (r: Launchability)
    ensures
        answers(r, can_launch),
{
    if can_launch {
        Launchability::yes()
    } else {
        Launchability::no("this node reports it cannot run models")
    }
}

/// An address of which nothing but itself is known.
pub open spec fn bare(addr: Seq<char>, class: LinkClass, rdma: bool) -> Address {
    Address { iface: Seq::empty(), addr, class, speed_mbps: None, prefix_len: 0, rdma }
}

fn bare_address(addr: &str, class: LinkClass, rdma: bool) -> (r: NodeAddress)
    ensures
        r@ == bare(addr@, class, rdma),
{
    let r = NodeAddress {
        iface: String::new(),
        addr: text::copy(addr),
        class,
        speed_mbps: None,
        prefix_len: 0,
        rdma,
    };
    assert(r@ =~= bare(addr@, class, rdma));
    r
}

/// The addresses a beacon advertised. A beacon is unauthenticated, so their
/// class is unverified: letting a stranger state it would let it talk its way
/// to the top of the preference order.
pub open spec fn advertised(beacon: Beacon) -> Seq<Address> {
    Seq::new(
        beacon.addresses@.len(),
        |i: int| bare(beacon.addresses@[i]@, LinkClass::Unverified, false),
    )
}

fn addresses_of(beacon: &Beacon) -> (r: Vec<NodeAddress>)
    ensures
        address_views(r@) == advertised(*beacon),
{
    let mut out: Vec<NodeAddress> = Vec::new();
    let mut i: usize = 0;
    while i < beacon.addresses.len()
        invariant
            i <= beacon.addresses.len(),
            out@.len() == i,
            forall|k: int| 0 <= k < i ==> (#[trigger] out@[k])@ == advertised(*beacon)[k],
        decreases beacon.addresses.len() - i,
    {
        out.push(bare_address(&beacon.addresses[i], LinkClass::Unverified, false));
        i += 1;
    }
    assert(address_views(out@) =~= advertised(*beacon));
    out
}

/// The same addresses.
pub fn copy_addresses(v: &Vec<NodeAddress>) -> (r: Vec<NodeAddress>)
    ensures
        r@ == v@,
{
    let mut out: Vec<NodeAddress> = Vec::new();
    let mut i: usize = 0;
    while i < v.len()
        invariant
            i <= v.len(),
            out@ == v@.subrange(0, i as int),
        decreases v.len() - i,
    {
        out.push(v[i].copy());
        i += 1;
        assert(out@ =~= v@.subrange(0, i as int));
    }
    assert(v@.subrange(0, v@.len() as int) =~= v@);
    out
}

/// A link class that means RDMA.
pub open spec fn is_rdma(c: LinkClass) -> bool {
    c == LinkClass::Roce || c == LinkClass::InfiniBand
}

/// The addresses shown for a paired machine: what it said of its own links;
/// where it said nothing, the remembered address on the link it was reached
/// over; without a report what it advertises; and without that the remembered
/// address alone.
pub open spec fn paired_addresses<F>(
    pin: Pin,
    seen: Option<Sighting>,
    report: Option<(PeerReport<F>, u64)>,
) -> Seq<Address> {
    match report {
        Some((r, _)) => if r.addresses@.len() > 0 {
            address_views(r.addresses@)
        } else {
            seq![
                bare(
                    match pin.last_address {
                        Some(a) => a@,
                        None => Seq::empty(),
                    },
                    r.link,
                    is_rdma(r.link),
                ),
            ]
        },
        None => match seen {
            Some(s) => advertised(s.beacon),
            None => match pin.last_address {
                Some(a) => seq![bare(a@, LinkClass::Unverified, false)],
                None => Seq::empty(),
            },
        },
    }
}

fn addresses_of_paired<F>(
    pin: &Pin,
    seen: Option<&Sighting>,
    report: Option<&(PeerReport<F>, u64)>,
) -> (r: Vec<NodeAddress>)
    ensures
        address_views(r@) == paired_addresses(
            *pin,
            seen_value(seen),
            report_value(report),
        ),
{
    match report {
        Some(r) => {
            if r.0.addresses.len() > 0 {
                return copy_addresses(&r.0.addresses);
            }
            let rdma = r.0.link == LinkClass::Roce || r.0.link == LinkClass::InfiniBand;
            let mut out: Vec<NodeAddress> = Vec::new();
            match &pin.last_address {
                Some(a) => out.push(bare_address(a, r.0.link, rdma)),
                None => {
                    let nothing = String::new();
                    out.push(bare_address(&nothing, r.0.link, rdma))
                },
            }
            assert(address_views(out@) =~= paired_addresses(
                *pin,
                seen_value(seen),
                report_value(report),
            ));
            out
        },
        None => match seen {
            Some(s) => addresses_of(&s.beacon),
            None => {
                let mut out: Vec<NodeAddress> = Vec::new();
                match &pin.last_address {
                    Some(a) => out.push(bare_address(a, LinkClass::Unverified, false)),
                    None => {},
                }
                assert(address_views(out@) =~= paired_addresses(
                    *pin,
                    seen_value(seen),
                    report_value(report),
                ));
                out
            },
        },
    }
}

/// The sighting behind a reference.
pub open spec fn seen_value(o: Option<&Sighting>) -> Option<Sighting> {
    match o {
        Some(s) => Some(*s),
        None => None,
    }
}

/// The report behind a reference.
pub open spec fn report_value<F>(o: Option<&(PeerReport<F>, u64)>) -> Option<(PeerReport<F>, u64)> {
    match o {
        Some(r) => Some(*r),
        None => None,
    }
}

impl<F: Copy> LocalFleet<F> {
    /// The alerts raised against a machine.
    pub open spec fn alerts_of(&self, id: NodeId) -> Seq<String> {
        match self.alerts.at(id) {
            Some(v) => v@,
            None => Seq::empty(),
        }
    }

    fn copy_alerts(&self, id: NodeId) -> (r: Vec<String>)
        ensures
            r@ == self.alerts_of(id),
    {
        match self.alerts.get(id) {
            Some(v) => copy_strings(v),
            None => Vec::new(),
        }
    }

    /// The row of this machine.
    pub open spec fn local_row(
        &self,
        vitals: Option<NodeVitals<F>>,
        running: Option<String>,
        d: NodeDescriptor<F>,
    ) -> bool {
        &&& d.id == self.id
        &&& d.name == self.name
        &&& d.is_local
        &&& d.pairing == PairingState::Paired
        &&& d.addresses@ == self.addresses@
        &&& d.launchability == self.launchability
        &&& d.agent_version == self.agent_version
        &&& d.accelerator == self.accelerator
        &&& d.os == self.os
        &&& d.vitals == vitals
        &&& d.alerts@ == self.alerts_of(self.id)
        &&& d.running == running
        &&& d.vouched_by is None
        &&& d.reached_via is None
    }

    /// This machine, with what it reads of itself now.
    pub fn local_node(&self, vitals: Option<NodeVitals<F>>, running: &Option<String>) -> (d:
        NodeDescriptor<F>)
        ensures
            self.local_row(vitals, *running, d),
    {
        NodeDescriptor {
            id: self.id,
            name: self.name.clone(),
            is_local: true,
            pairing: PairingState::Paired,
            addresses: copy_addresses(&self.addresses),
            launchability: self.launchability.copy(),
            agent_version: self.agent_version.clone(),
            accelerator: self.accelerator.clone(),
            os: self.os.clone(),
            vitals,
            alerts: self.copy_alerts(self.id),
            running: copy_opt(running),
            vouched_by: None,
            reached_via: None,
        }
    }

    /// Whether a paired machine counts as answering: a completed handshake is
    /// better evidence than a beacon, and a recent beacon will do.
    pub open spec fn answering(&self, id: NodeId, now: u64) -> bool {
        self.reports.at(id) is Some || (self.seen.at(id) matches Some(s) && since(s.at, now)
            < UNREACHABLE_AFTER)
    }

    /// Who vouches for a machine, if anyone does.
    pub open spec fn voucher_of(&self, id: NodeId) -> Option<NodeId> {
        match self.described(id) {
            Some(c) => Some(c.voucher),
            None => None,
        }
    }

    fn voucher(&self, id: NodeId) -> (r: Option<NodeId>)
        ensures
            r == self.voucher_of(id),
    {
        match self.vouch_of(id) {
            Some(c) => Some(c.voucher),
            None => None,
        }
    }

    /// The row of a paired machine.
    pub open spec fn paired_row(&self, id: NodeId, pin: Pin, now: u64, d: NodeDescriptor<F>) -> bool {
        let seen = self.seen.at(id);
        let report = self.reports.at(id);
        &&& d.id == id
        &&& d.name@ == (match report {
            Some((r, _)) => shown(r.name@),
            None => match seen {
                Some(s) => s.beacon.name@,
                None => pin.name@,
            },
        })
        &&& !d.is_local
        &&& d.pairing == (if self.answering(id, now) {
            PairingState::Paired
        } else {
            PairingState::Unreachable
        })
        &&& address_views(d.addresses@) == paired_addresses(pin, seen, report)
        &&& match report {
            Some((r, _)) => answers(d.launchability, r.can_launch),
            None => match seen {
                Some(s) => answers(d.launchability, s.beacon.can_launch),
                None => !d.launchability.can_launch && d.launchability.reason@
                    == "not reachable right now"@,
            },
        }
        &&& d.agent_version@ == Seq::<char>::empty()
        &&& d.accelerator@ == (match report {
            Some((r, _)) => r.accelerator@,
            None => match seen {
                Some(s) => s.beacon.accelerator@,
                None => Seq::empty(),
            },
        })
        &&& d.os@ == (match report {
            Some((r, _)) => r.os@,
            None => Seq::empty(),
        })
        &&& d.vitals == (match report {
            Some((r, _)) => r.vitals,
            None => None,
        })
        &&& d.alerts@ == self.alerts_of(id)
        &&& d.running is None
        &&& d.vouched_by == self.voucher_of(id)
        &&& d.reached_via is None
    }

    fn paired_node(&self, id: NodeId, pin: &Pin, now: u64) -> (d: NodeDescriptor<F>)
        ensures
            self.paired_row(id, *pin, now, d),
    {
        let seen = self.seen.get(id);
        let report = self.reports.get(id);
        let lately = match seen {
            Some(s) => now.saturating_sub(s.at) < UNREACHABLE_AFTER,
            None => false,
        };
        let answering = report.is_some() || lately;
        let addresses = addresses_of_paired(pin, seen, report);
        let launchability = match report {
            Some(r) => as_launchability(r.0.can_launch),
            None => match seen {
                Some(s) => as_launchability(s.beacon.can_launch),
                None => Launchability::no("not reachable right now"),
            },
        };
        let accelerator = match report {
            Some(r) => r.0.accelerator.clone(),
            None => match seen {
                Some(s) => s.beacon.accelerator.clone(),
                None => String::new(),
            },
        };
        let os = match report {
            Some(r) => r.0.os.clone(),
            None => String::new(),
        };
        let vitals = match report {
            Some(r) => r.0.vitals,
            None => None,
        };
        let name = match report {
            Some(r) => display_name(&r.0.name),
            None => match seen {
                Some(s) => s.beacon.name.clone(),
                None => pin.name.clone(),
            },
        };
        NodeDescriptor {
            id,
            name,
            is_local: false,
            pairing: if answering {
                PairingState::Paired
            } else {
                PairingState::Unreachable
            },
            addresses,
            launchability,
            agent_version: String::new(),
            accelerator,
            os,
            vitals,
            alerts: self.copy_alerts(id),
            running: None,
            vouched_by: self.voucher(id),
            reached_via: None,
        }
    }

    /// The row of a machine that was seen and is not paired.
    pub open spec fn seen_row(&self, id: NodeId, s: Sighting, d: NodeDescriptor<F>) -> bool {
        &&& d.id == id
        &&& d.name@ == s.beacon.name@
        &&& !d.is_local
        &&& d.pairing == PairingState::Discovered
        &&& address_views(d.addresses@) == advertised(s.beacon)
        &&& answers(d.launchability, s.beacon.can_launch)
        &&& d.agent_version@ == Seq::<char>::empty()
        &&& d.accelerator@ == s.beacon.accelerator@
        &&& d.os@ == Seq::<char>::empty()
        &&& d.vitals is None
        &&& d.alerts@ == Seq::<String>::empty()
        &&& d.running is None
        &&& d.vouched_by == self.voucher_of(id)
        &&& d.reached_via is None
    }

    fn seen_node(&self, id: NodeId, s: &Sighting) -> (d: NodeDescriptor<F>)
        ensures
            self.seen_row(id, *s, d),
    {
        NodeDescriptor {
            id,
            name: s.beacon.name.clone(),
            is_local: false,
            pairing: PairingState::Discovered,
            addresses: addresses_of(&s.beacon),
            launchability: as_launchability(s.beacon.can_launch),
            agent_version: String::new(),
            accelerator: s.beacon.accelerator.clone(),
            os: String::new(),
            vitals: None,
            alerts: Vec::new(),
            running: None,
            vouched_by: self.voucher(id),
            reached_via: None,
        }
    }

    /// The row of a machine known only by a claim. Its vitals are shown only
    /// with a stated age, and a recent one: an unknown age is not zero.
    pub open spec fn vouched_row(&self, target: NodeId, c: Claim<F>, d: NodeDescriptor<F>) -> bool {
        &&& d.id == target
        &&& d.name@ == c.peer.name@
        &&& !d.is_local
        &&& d.pairing == PairingState::Vouched
        &&& d.addresses@ == c.peer.addresses@
        &&& answers(d.launchability, c.peer.can_launch)
        &&& d.agent_version@ == Seq::<char>::empty()
        &&& d.accelerator@ == c.peer.accelerator@
        &&& d.os@ == c.peer.os@
        &&& d.vitals == (match c.peer.vitals_age_s {
            Some(age) => if age * 1000 <= UNREACHABLE_AFTER {
                c.peer.vitals
            } else {
                None
            },
            None => None,
        })
        &&& d.alerts@ == Seq::<String>::empty()
        &&& d.running is None
        &&& d.vouched_by == Some(c.voucher)
        &&& d.reached_via == self.route_of(target)
    }

    fn vouched_node(&self, target: NodeId, c: &Claim<F>) -> (d: NodeDescriptor<F>)
        ensures
            self.vouched_row(target, *c, d),
    {
        let vitals = match c.peer.vitals_age_s {
            Some(age) => if age <= UNREACHABLE_AFTER / 1000 {
                c.peer.vitals
            } else {
                None
            },
            None => None,
        };
        NodeDescriptor {
            id: target,
            name: c.peer.name.clone(),
            is_local: false,
            pairing: PairingState::Vouched,
            addresses: copy_addresses(&c.peer.addresses),
            launchability: as_launchability(c.peer.can_launch),
            agent_version: String::new(),
            accelerator: c.peer.accelerator.clone(),
            os: c.peer.os.clone(),
            vitals,
            alerts: Vec::new(),
            running: None,
            vouched_by: Some(c.voucher),
            reached_via: self.choose_voucher(target),
        }
    }

    /// The machines among the first `n` seen that are not paired.
    pub open spec fn strangers(
        seen: Seq<(NodeId, Sighting)>,
        pins: Seq<(NodeId, Pin)>,
        n: int,
    ) -> Seq<(NodeId, Sighting)>
        decreases n,
    {
        if n <= 0 {
            Seq::empty()
        } else if lookup(pins, seen[n - 1].0) is None {
            Self::strangers(seen, pins, n - 1).push(seen[n - 1])
        } else {
            Self::strangers(seen, pins, n - 1)
        }
    }

    /// A machine that nothing first-hand is known of.
    pub open spec fn unknown_here(&self, pins: Seq<(NodeId, Pin)>, target: NodeId) -> bool {
        lookup(pins, target) is None && self.seen.at(target) is None && target != self.id
    }

    /// The machines among the first `n` vouched for that nothing first-hand is
    /// known of.
    pub open spec fn second_hand(
        &self,
        targets: Seq<NodeId>,
        pins: Seq<(NodeId, Pin)>,
        n: int,
    ) -> Seq<NodeId>
        decreases n,
    {
        if n <= 0 {
            Seq::empty()
        } else if self.unknown_here(pins, targets[n - 1]) && self.described(targets[n - 1]) is Some {
            self.second_hand(targets, pins, n - 1).push(targets[n - 1])
        } else {
            self.second_hand(targets, pins, n - 1)
        }
    }

    /// The fleet: this machine, then the paired machines, then those seen and
    /// not paired, then those known only by a claim; each tier in ascending
    /// order.
    pub open spec fn is_fleet(
        &self,
        pins: Seq<(NodeId, Pin)>,
        vitals: Option<NodeVitals<F>>,
        running: Option<String>,
        now: u64,
        out: Seq<NodeDescriptor<F>>,
    ) -> bool {
        let seen = self.seen.listing();
        let claims = self.vouches.listing();
        let strangers = Self::strangers(seen, pins, seen.len() as int);
        let targets = Self::targets(claims, claims.len() as int);
        let others = self.second_hand(targets, pins, targets.len() as int);
        let p = pins.len() as int;
        let q = strangers.len() as int;
        &&& out.len() == 1 + p + q + others.len()
        &&& self.local_row(vitals, running, out[0])
        &&& forall|k: int|
            0 <= k < p ==> self.paired_row(pins[k].0, pins[k].1, now, #[trigger] out[1 + k])
        &&& forall|k: int|
            0 <= k < q ==> self.seen_row(
                strangers[k].0,
                strangers[k].1,
                #[trigger] out[1 + p + k],
            )
        &&& forall|k: int|
            0 <= k < others.len() ==> self.vouched_row(
                others[k],
                self.described(others[k]).unwrap(),
                #[trigger] out[1 + p + q + k],
            )
    }

    /// Every machine this one knows of, with what it knows.
    ///
    /// `pins` is what was pinned, as far as it could be read; pins that cannot
    /// be read count as none here. `vitals` and `running` are this machine's
    /// own readings.
    pub fn nodes(
        &self,
        pins: &PinsRead,
        vitals: Option<NodeVitals<F>>,
        running: &Option<String>,
        now: u64,
    ) -> (out: Vec<NodeDescriptor<F>>)
        ensures
            self.is_fleet(read_pins(*pins), vitals, *running, now, out@),
    {
        match pins {
            Ok(store) => self.nodes_with(store, vitals, running, now),
            Err(_) => {
                let none = PinStore::new();
                assert(read_pins(*pins) =~= none.pins.listing());
                self.nodes_with(&none, vitals, running, now)
            },
        }
    }

    fn nodes_with(
        &self,
        store: &PinStore,
        vitals: Option<NodeVitals<F>>,
        running: &Option<String>,
        now: u64,
    ) -> (out: Vec<NodeDescriptor<F>>)
        ensures
            self.is_fleet(store.pins.listing(), vitals, *running, now, out@),
    {
        let ghost pins = store.pins.listing();
        let ghost seen = self.seen.listing();
        let mut out: Vec<NodeDescriptor<F>> = Vec::new();
        out.push(self.local_node(vitals, running));
        let p = store.pins.len();
        let mut i: usize = 0;
        while i < p
            invariant
                i <= p,
                p == pins.len(),
                pins == store.pins.listing(),
                out@.len() == 1 + i,
                self.local_row(vitals, *running, out@[0]),
                forall|k: int|
                    0 <= k < i ==> self.paired_row(
                        pins[k].0,
                        pins[k].1,
                        now,
                        #[trigger] out@[1 + k],
                    ),
            decreases p - i,
        {
            out.push(self.paired_node(store.pins.id_at(i), store.pins.value_at(i), now));
            i += 1;
        }
        let total = self.seen.len();
        let mut j: usize = 0;
        let ghost mut strangers: Seq<(NodeId, Sighting)> = Seq::empty();
        while j < total
            invariant
                j <= total,
                total == seen.len(),
                seen == self.seen.listing(),
                p == pins.len(),
                pins == store.pins.listing(),
                strangers == Self::strangers(seen, pins, j as int),
                out@.len() == 1 + p + strangers.len(),
                self.local_row(vitals, *running, out@[0]),
                forall|k: int|
                    0 <= k < p ==> self.paired_row(
                        pins[k].0,
                        pins[k].1,
                        now,
                        #[trigger] out@[1 + k],
                    ),
                forall|k: int|
                    0 <= k < strangers.len() ==> self.seen_row(
                        strangers[k].0,
                        strangers[k].1,
                        #[trigger] out@[1 + p + k],
                    ),
            decreases total - j,
        {
            let id = self.seen.id_at(j);
            if !store.pins.contains(id) {
                out.push(self.seen_node(id, self.seen.value_at(j)));
                proof {
                    strangers = strangers.push(seen[j as int]);
                }
            }
            j += 1;
        }
        let targets = self.vouched_targets();
        let ghost mut others: Seq<NodeId> = Seq::empty();
        let mut k: usize = 0;
        while k < targets.len()
            invariant
                k <= targets.len(),
                p == pins.len(),
                pins == store.pins.listing(),
                others == self.second_hand(targets@, pins, k as int),
                out@.len() == 1 + p + strangers.len() + others.len(),
                self.local_row(vitals, *running, out@[0]),
                forall|k: int|
                    0 <= k < p ==> self.paired_row(
                        pins[k].0,
                        pins[k].1,
                        now,
                        #[trigger] out@[1 + k],
                    ),
                forall|k: int|
                    0 <= k < strangers.len() ==> self.seen_row(
                        strangers[k].0,
                        strangers[k].1,
                        #[trigger] out@[1 + p + k],
                    ),
                forall|m: int|
                    0 <= m < others.len() ==> self.vouched_row(
                        others[m],
                        self.described(others[m]).unwrap(),
                        #[trigger] out@[1 + p + strangers.len() + m],
                    ),
            decreases targets.len() - k,
        {
            let target = targets[k];
            if !store.pins.contains(target) && !self.seen.contains(target) && target != self.id {
                match self.vouch_of(target) {
                    Some(c) => {
                        out.push(self.vouched_node(target, c));
                        proof {
                            others = others.push(target);
                        }
                    },
                    None => {},
                }
            }
            k += 1;
        }
        out
    }
}

// ---------------------------------------------------------------------------
// Laws
// ---------------------------------------------------------------------------

proof fn lemma_strangers<F: Copy>(
    seen: Seq<(NodeId, Sighting)>,
    pins: Seq<(NodeId, Pin)>,
    n: int,
)
    requires
        ascending(seen),
        0 <= n <= seen.len(),
    ensures
        ascending(LocalFleet::<F>::strangers(seen, pins, n)),
        forall|k: int|
            0 <= k < LocalFleet::<F>::strangers(seen, pins, n).len() ==> lookup(
                pins,
                (#[trigger] LocalFleet::<F>::strangers(seen, pins, n)[k]).0,
            ) is None && seen.subrange(0, n).contains(
                LocalFleet::<F>::strangers(seen, pins, n)[k],
            ),
    decreases n,
{
    if n > 0 {
        lemma_strangers::<F>(seen, pins, n - 1);
        let a = LocalFleet::<F>::strangers(seen, pins, n - 1);
        let b = LocalFleet::<F>::strangers(seen, pins, n);
        let short = seen.subrange(0, n - 1);
        let long = seen.subrange(0, n);
        assert forall|k: int| 0 <= k < b.len() implies lookup(pins, (#[trigger] b[k]).0) is None
            && long.contains(b[k]) by {
            if k < a.len() {
                assert(b[k] == a[k]);
                let j = choose|j: int| 0 <= j < short.len() && short[j] == a[k];
                assert(long[j] == b[k]);
            } else {
                assert(long[n - 1] == b[k]);
            }
        }
        assert forall|i: int, j: int| 0 <= i < j < b.len() implies (#[trigger] b[i]).0.lt(
            (#[trigger] b[j]).0,
        ) by {
            assert(b[i] == a[i]);
            if j < a.len() {
                assert(b[j] == a[j]);
            } else {
                let m = choose|m: int| 0 <= m < short.len() && short[m] == a[i];
                assert(seen[m].0.lt(seen[n - 1].0));
            }
        }
    }
}

/// Identities in strictly ascending order.
pub open spec fn rising(s: Seq<NodeId>) -> bool {
    forall|i: int, j: int| 0 <= i < j < s.len() ==> (#[trigger] s[i]).lt(#[trigger] s[j])
}

proof fn lemma_targets<F: Copy>(s: Seq<Claim<F>>, n: int)
    requires
        sorted(s),
        0 <= n <= s.len(),
    ensures
        rising(LocalFleet::<F>::targets(s, n)),
        n > 0 ==> LocalFleet::<F>::targets(s, n).len() > 0 && LocalFleet::<F>::targets(s, n).last()
            == s[n - 1].peer.node,
    decreases n,
{
    if n > 0 {
        lemma_targets::<F>(s, n - 1);
        let a = LocalFleet::<F>::targets(s, n - 1);
        let b = LocalFleet::<F>::targets(s, n);
        if n >= 2 {
            assert(earlier(s[n - 2], s[n - 1]));
            assert forall|i: int, j: int| 0 <= i < j < b.len() implies (#[trigger] b[i]).lt(
                #[trigger] b[j],
            ) by {
                assert(b[i] == a[i]);
                if j == a.len() {
                    assert(i < a.len() - 1 ==> a[i].lt(a[a.len() - 1]));
                }
            }
        }
    }
}

proof fn lemma_second_hand<F: Copy>(
    f: LocalFleet<F>,
    targets: Seq<NodeId>,
    pins: Seq<(NodeId, Pin)>,
    n: int,
)
    requires
        rising(targets),
        0 <= n <= targets.len(),
    ensures
        rising(f.second_hand(targets, pins, n)),
        forall|k: int|
            0 <= k < f.second_hand(targets, pins, n).len() ==> f.unknown_here(
                pins,
                #[trigger] f.second_hand(targets, pins, n)[k],
            ) && targets.subrange(0, n).contains(f.second_hand(targets, pins, n)[k]),
    decreases n,
{
    if n > 0 {
        lemma_second_hand(f, targets, pins, n - 1);
        let a = f.second_hand(targets, pins, n - 1);
        let b = f.second_hand(targets, pins, n);
        let short = targets.subrange(0, n - 1);
        let long = targets.subrange(0, n);
        assert forall|k: int| 0 <= k < b.len() implies f.unknown_here(pins, #[trigger] b[k])
            && long.contains(b[k]) by {
            if k < a.len() {
                assert(b[k] == a[k]);
                let j = choose|j: int| 0 <= j < short.len() && short[j] == a[k];
                assert(long[j] == b[k]);
            } else {
                assert(long[n - 1] == b[k]);
            }
        }
        assert forall|i: int, j: int| 0 <= i < j < b.len() implies (#[trigger] b[i]).lt(
            #[trigger] b[j],
        ) by {
            assert(b[i] == a[i]);
            if j < a.len() {
                assert(b[j] == a[j]);
            } else {
                let m = choose|m: int| 0 <= m < short.len() && short[m] == a[i];
                assert(targets[m].lt(targets[n - 1]));
            }
        }
    }
}

/// Law: one machine, one row. However many sources know a machine, it is
/// listed once, under the first tier that knows it.
pub proof fn law_a_machine_is_listed_once<F: Copy>(
    f: LocalFleet<F>,
    pins: Seq<(NodeId, Pin)>,
    vitals: Option<NodeVitals<F>>,
    running: Option<String>,
    now: u64,
    out: Seq<NodeDescriptor<F>>,
    i: int,
    j: int,
)
    requires
        f.is_fleet(pins, vitals, running, now, out),
        ascending(pins),
        ascending(f.seen.listing()),
        sorted(f.vouches.listing()),
        lookup(pins, f.id) is None,
        f.sound(),
        0 <= i < j < out.len(),
    ensures
        out[i].id != out[j].id,
{
    let seen = f.seen.listing();
    let claims = f.vouches.listing();
    let strangers = LocalFleet::<F>::strangers(seen, pins, seen.len() as int);
    let targets = LocalFleet::<F>::targets(claims, claims.len() as int);
    let others = f.second_hand(targets, pins, targets.len() as int);
    let p = pins.len() as int;
    let q = strangers.len() as int;
    lemma_strangers::<F>(seen, pins, seen.len() as int);
    lemma_targets::<F>(claims, claims.len() as int);
    lemma_second_hand(f, targets, pins, targets.len() as int);
    assert(seen.subrange(0, seen.len() as int) =~= seen);
    lemma_row(f, pins, vitals, running, now, out, i);
    lemma_row(f, pins, vitals, running, now, out, j);
    if 1 + p <= j < 1 + p + q {
        let s = strangers[j - 1 - p];
        let m = choose|m: int| 0 <= m < seen.len() && seen[m] == s;
        lemma_lookup_entry(seen, m);
    }
    if 1 + p <= i < 1 + p + q {
        let s = strangers[i - 1 - p];
        let m = choose|m: int| 0 <= m < seen.len() && seen[m] == s;
        lemma_lookup_entry(seen, m);
        if j < 1 + p + q {
            assert(s.0.lt(strangers[j - 1 - p].0));
        }
    }
    if 1 <= j < 1 + p {
        lemma_lookup_entry(pins, j - 1);
    }
    if 1 <= i < 1 + p {
        lemma_lookup_entry(pins, i - 1);
        if j < 1 + p {
            assert(pins[i - 1].0.lt(pins[j - 1].0));
        }
    }
    if 1 + p + q <= j {
        assert(f.unknown_here(pins, others[j - 1 - p - q]));
        if 1 + p + q <= i {
            assert(others[i - 1 - p - q].lt(others[j - 1 - p - q]));
        }
    }
}

proof fn lemma_row<F: Copy>(
    f: LocalFleet<F>,
    pins: Seq<(NodeId, Pin)>,
    vitals: Option<NodeVitals<F>>,
    running: Option<String>,
    now: u64,
    out: Seq<NodeDescriptor<F>>,
    i: int,
)
    requires
        f.is_fleet(pins, vitals, running, now, out),
        0 <= i < out.len(),
    ensures
        ({
            let seen = f.seen.listing();
            let claims = f.vouches.listing();
            let strangers = LocalFleet::<F>::strangers(seen, pins, seen.len() as int);
            let targets = LocalFleet::<F>::targets(claims, claims.len() as int);
            let others = f.second_hand(targets, pins, targets.len() as int);
            let p = pins.len() as int;
            let q = strangers.len() as int;
            &&& i == 0 ==> f.local_row(vitals, running, out[i])
            &&& 1 <= i < 1 + p ==> f.paired_row(pins[i - 1].0, pins[i - 1].1, now, out[i])
            &&& 1 + p <= i < 1 + p + q ==> f.seen_row(
                strangers[i - 1 - p].0,
                strangers[i - 1 - p].1,
                out[i],
            )
            &&& 1 + p + q <= i ==> f.vouched_row(
                others[i - 1 - p - q],
                f.described(others[i - 1 - p - q]).unwrap(),
                out[i],
            )
        }),
{
    let seen = f.seen.listing();
    let strangers = LocalFleet::<F>::strangers(seen, pins, seen.len() as int);
    let p = pins.len() as int;
    let q = strangers.len() as int;
    if 1 <= i < 1 + p {
        assert(out[1 + (i - 1)] == out[i]);
    } else if 1 + p <= i < 1 + p + q {
        assert(out[1 + p + (i - 1 - p)] == out[i]);
    } else if 1 + p + q <= i {
        assert(out[1 + p + q + (i - 1 - p - q)] == out[i]);
    }
}

/// Law: only what was paired with is shown as paired, and a stranger is shown
/// without vitals. A row other than this machine's own is `Paired` or
/// `Unreachable` exactly where there is a pin, and one that was merely seen
/// carries no vitals, no operating system, no alerts and no verified link.
pub proof fn law_only_a_pin_makes_a_machine_paired<F: Copy>(
    f: LocalFleet<F>,
    pins: Seq<(NodeId, Pin)>,
    vitals: Option<NodeVitals<F>>,
    running: Option<String>,
    now: u64,
    out: Seq<NodeDescriptor<F>>,
    i: int,
)
    requires
        f.is_fleet(pins, vitals, running, now, out),
        ascending(pins),
        ascending(f.seen.listing()),
        sorted(f.vouches.listing()),
        1 <= i < out.len(),
    ensures
        (out[i].pairing == PairingState::Paired || out[i].pairing == PairingState::Unreachable) == (
        lookup(pins, out[i].id) is Some),
        out[i].pairing == PairingState::Discovered ==> out[i].vitals is None && out[i].os@.len() == 0
            && out[i].alerts@.len() == 0 && forall|k: int|
            0 <= k < out[i].addresses@.len() ==> (#[trigger] out[i].addresses@[k]).class
                == LinkClass::Unverified,
{
    let seen = f.seen.listing();
    let claims = f.vouches.listing();
    let strangers = LocalFleet::<F>::strangers(seen, pins, seen.len() as int);
    let targets = LocalFleet::<F>::targets(claims, claims.len() as int);
    let p = pins.len() as int;
    let q = strangers.len() as int;
    lemma_row(f, pins, vitals, running, now, out, i);
    lemma_strangers::<F>(seen, pins, seen.len() as int);
    lemma_targets::<F>(claims, claims.len() as int);
    lemma_second_hand(f, targets, pins, targets.len() as int);
    if i < 1 + p {
        lemma_lookup_entry(pins, i - 1);
    } else if i < 1 + p + q {
        let s = strangers[i - 1 - p];
        assert forall|k: int| 0 <= k < out[i].addresses@.len() implies (
        #[trigger] out[i].addresses@[k]).class == LinkClass::Unverified by {
            assert(address_views(out[i].addresses@)[k] == out[i].addresses@[k]@);
            assert(address_views(out[i].addresses@).len() == out[i].addresses@.len());
            assert(advertised(s.1.beacon)[k] == bare(
                s.1.beacon.addresses@[k]@,
                LinkClass::Unverified,
                false,
            ));
        }
    } else {
        let others = f.second_hand(targets, pins, targets.len() as int);
        assert(f.unknown_here(pins, others[i - 1 - p - q]));
    }
}

/// Law: where a machine is known first-hand, a claim adds the name of its
/// voucher and nothing else. Whatever claims there are, the row of a paired
/// machine differs in that one field alone.
pub proof fn law_a_claim_only_labels_what_is_known<F: Copy>(
    f: LocalFleet<F>,
    g: LocalFleet<F>,
    id: NodeId,
    pin: Pin,
    now: u64,
    d: NodeDescriptor<F>,
)
    requires
        g == (LocalFleet { vouches: g.vouches, ..f }),
        f.paired_row(id, pin, now, d),
    ensures
        g.paired_row(id, pin, now, NodeDescriptor { vouched_by: g.voucher_of(id), ..d }),
{
}

/// Law: what a machine says over the authenticated channel outranks its
/// beacon. With a report at hand, nothing that is shown of its name, its
/// addresses, its launchability, its accelerator, its system or its vitals
/// depends on what was heard of it.
pub proof fn law_a_report_outranks_a_beacon<F: Copy>(
    f: LocalFleet<F>,
    g: LocalFleet<F>,
    id: NodeId,
    pin: Pin,
    now: u64,
    d: NodeDescriptor<F>,
    e: NodeDescriptor<F>,
)
    requires
        g == (LocalFleet { seen: g.seen, ..f }),
        f.reports.at(id) is Some,
        f.paired_row(id, pin, now, d),
        g.paired_row(id, pin, now, e),
    ensures
        d.pairing == PairingState::Paired,
        e.pairing == PairingState::Paired,
        d.name@ == e.name@,
        address_views(d.addresses@) == address_views(e.addresses@),
        d.launchability.can_launch == e.launchability.can_launch,
        d.launchability.reason@ == e.launchability.reason@,
        d.accelerator@ == e.accelerator@,
        d.os@ == e.os@,
        d.vitals == e.vitals,
{
}

/// Law: a paired machine stays in the fleet, whether or not it is switched
/// on. Wherever there is a pin there is a row, and it says that the machine
/// is paired or that it does not answer.
pub proof fn law_a_paired_machine_stays_listed<F: Copy>(
    f: LocalFleet<F>,
    pins: Seq<(NodeId, Pin)>,
    vitals: Option<NodeVitals<F>>,
    running: Option<String>,
    now: u64,
    out: Seq<NodeDescriptor<F>>,
    id: NodeId,
)
    requires
        f.is_fleet(pins, vitals, running, now, out),
        ascending(pins),
        lookup(pins, id) is Some,
    ensures
        exists|i: int|
            1 <= i < out.len() && (#[trigger] out[i]).id == id && out[i].pairing == (if f.answering(
                id,
                now,
            ) {
                PairingState::Paired
            } else {
                PairingState::Unreachable
            }),
{
    let m = crate::node::lemma_lookup_found(pins, id);
    assert(f.paired_row(pins[m].0, pins[m].1, now, out[1 + m]));
}

/// Law: second-hand vitals are shown only while they are fresh. Where the row
/// of a machine known only by a claim carries vitals, the claim states their
/// age, and the age is within the time after which a machine counts as
/// silent.
pub proof fn law_second_hand_vitals_have_an_age<F: Copy>(
    f: LocalFleet<F>,
    target: NodeId,
    c: Claim<F>,
    d: NodeDescriptor<F>,
)
    requires
        f.vouched_row(target, c, d),
        d.vitals is Some,
    ensures
        d.vitals == c.peer.vitals,
        c.peer.vitals_age_s matches Some(age) && age * 1000 <= UNREACHABLE_AFTER,
{
}

/// Law: the row of a paired machine shows the best that is known of it. With a
/// report it shows what the machine said of itself; without one, what its
/// beacon says, unverified; with neither, what its pin holds, and that it
/// cannot be reached. It answers while there is a report or was a beacon
/// within the last minute.
pub proof fn law_a_row_shows_the_best_that_is_known<F: Copy>(
    f: LocalFleet<F>,
    id: NodeId,
    pin: Pin,
    now: u64,
    d: NodeDescriptor<F>,
    k: int,
)
    requires
        f.paired_row(id, pin, now, d),
    ensures
        d.id == id && !d.is_local && d.running is None && d.reached_via is None,
        d.pairing is Paired <==> f.reports.at(id) is Some || (f.seen.at(id) is Some && now
            < f.seen.at(id).unwrap().at + 60_000),
        d.pairing is Paired || d.pairing is Unreachable,
        match f.reports.at(id) {
            Some((r, _)) => {
                &&& d.name@ == shown(r.name@)
                &&& d.accelerator@ == r.accelerator@
                &&& d.os@ == r.os@
                &&& d.vitals == r.vitals
                &&& d.launchability.can_launch == r.can_launch
                &&& r.addresses@.len() > 0 ==> d.addresses@.len() == r.addresses@.len() && (0 <= k
                    < r.addresses@.len() ==> d.addresses@[k]@ == r.addresses@[k]@)
                &&& r.addresses@.len() == 0 ==> d.addresses@.len() == 1 && d.addresses@[0].class
                    == r.link && (d.addresses@[0].rdma <==> r.link is Roce || r.link is InfiniBand)
            },
            None => match f.seen.at(id) {
                Some(s) => {
                    &&& d.name@ == s.beacon.name@
                    &&& d.accelerator@ == s.beacon.accelerator@
                    &&& d.os@.len() == 0
                    &&& d.vitals is None
                    &&& d.launchability.can_launch == s.beacon.can_launch
                    &&& d.addresses@.len() == s.beacon.addresses@.len()
                    &&& 0 <= k < d.addresses@.len() ==> d.addresses@[k].addr@
                        == s.beacon.addresses@[k]@ && d.addresses@[k].class is Unverified
                        && !d.addresses@[k].rdma
                },
                None => {
                    &&& d.name@ == pin.name@
                    &&& d.accelerator@.len() == 0
                    &&& d.os@.len() == 0
                    &&& d.vitals is None
                    &&& !d.launchability.can_launch
                    &&& d.launchability.reason@ == "not reachable right now"@
                    &&& pin.last_address is None ==> d.addresses@.len() == 0
                    &&& pin.last_address matches Some(a) ==> d.addresses@.len() == 1
                        && d.addresses@[0].addr@ == a@ && d.addresses@[0].class is Unverified
                },
            },
        },
        d.alerts@ == (match f.alerts.at(id) {
            Some(v) => v@,
            None => Seq::empty(),
        }),
{
    let views = address_views(d.addresses@);
    assert(views.len() == d.addresses@.len());
    assert forall|j: int| 0 <= j < d.addresses@.len() implies views[j]
        == #[trigger] d.addresses@[j]@ by {
    }
    if d.addresses@.len() > 0 {
        assert(views[0] == d.addresses@[0]@);
    }
    if 0 <= k < d.addresses@.len() {
        assert(views[k] == d.addresses@[k]@);
    }
    match f.reports.at(id) {
        Some((r, _)) => {
            assert(address_views(r.addresses@).len() == r.addresses@.len());
            if 0 <= k < r.addresses@.len() {
                assert(address_views(r.addresses@)[k] == r.addresses@[k]@);
            }
        },
        None => {},
    }
}

/// Law: a stranger's row shows what its beacon says, unverified, and nothing
/// more; a row at second hand shows what the claim says, that it is one, and
/// the way a request would take.
pub proof fn law_other_rows_show_what_was_said<F: Copy>(
    f: LocalFleet<F>,
    id: NodeId,
    s: Sighting,
    d: NodeDescriptor<F>,
    c: Claim<F>,
    e: NodeDescriptor<F>,
    k: int,
)
    ensures
        f.seen_row(id, s, d) ==> {
            &&& d.id == id && !d.is_local && d.pairing is Discovered
            &&& d.name@ == s.beacon.name@
            &&& d.accelerator@ == s.beacon.accelerator@
            &&& d.launchability.can_launch == s.beacon.can_launch
            &&& d.addresses@.len() == s.beacon.addresses@.len()
            &&& 0 <= k < d.addresses@.len() ==> d.addresses@[k].addr@ == s.beacon.addresses@[k]@
                && d.addresses@[k].class is Unverified
            &&& d.vitals is None && d.os@.len() == 0 && d.alerts@.len() == 0 && d.reached_via is None
        },
        f.vouched_row(id, c, e) ==> {
            &&& e.id == id && !e.is_local && e.pairing is Vouched
            &&& e.name@ == c.peer.name@
            &&& e.accelerator@ == c.peer.accelerator@
            &&& e.os@ == c.peer.os@
            &&& e.addresses@ == c.peer.addresses@
            &&& e.launchability.can_launch == c.peer.can_launch
            &&& e.vouched_by == Some(c.voucher)
            &&& e.reached_via == f.route_of(id)
            &&& e.vitals is Some <==> c.peer.vitals is Some && (c.peer.vitals_age_s matches Some(a)
                && a <= 60)
            &&& e.vitals is Some ==> e.vitals == c.peer.vitals
            &&& e.alerts@.len() == 0
        },
{
    if f.seen_row(id, s, d) {
        let views = address_views(d.addresses@);
        assert(views.len() == d.addresses@.len());
        if 0 <= k < d.addresses@.len() {
            assert(views[k] == d.addresses@[k]@);
        }
    }
}

/// Law: why a machine cannot run models is said exactly where it cannot.
pub proof fn law_a_reason_is_given_where_there_is_one(l: Launchability, can: bool)
    requires
        answers(l, can),
    ensures
        l.can_launch == can,
        can ==> l.reason@.len() == 0,
        !can ==> l.reason@ == "this node reports it cannot run models"@,
{
}

/// Not among the pins.
pub open spec fn unpinned(pins: Seq<(NodeId, Pin)>) -> spec_fn((NodeId, Sighting)) -> bool {
    |s: (NodeId, Sighting)| lookup(pins, s.0) is None
}

/// Known only by what somebody says of it.
pub open spec fn only_claimed<F: Copy>(
    f: LocalFleet<F>,
    pins: Seq<(NodeId, Pin)>,
) -> spec_fn(NodeId) -> bool {
    |t: NodeId|
        lookup(pins, t) is None && f.seen.at(t) is None && t != f.id && f.described(t) is Some
}

/// Law: everything that is known has a row. This machine comes first, then
/// every paired machine, then every one that was seen and is not paired, then
/// every one that is known only by a claim; and there are no others.
pub proof fn law_everything_known_has_a_row<F: Copy>(
    f: LocalFleet<F>,
    pins: Seq<(NodeId, Pin)>,
    vitals: Option<NodeVitals<F>>,
    running: Option<String>,
    now: u64,
    out: Seq<NodeDescriptor<F>>,
    k: int,
)
    requires
        f.is_fleet(pins, vitals, running, now, out),
    ensures
        ({
            let strangers = f.seen.listing().filter(unpinned(pins));
            let targets = LocalFleet::<F>::targets(
                f.vouches.listing(),
                f.vouches.listing().len() as int,
            );
            let others = targets.filter(only_claimed(f, pins));
            let p = pins.len() as int;
            let q = strangers.len() as int;
            &&& out.len() == 1 + p + q + others.len()
            &&& out[0].id == f.id && out[0].is_local && out[0].vitals == vitals && out[0].running
                == running && out[0].name == f.name && out[0].addresses@ == f.addresses@
            &&& 0 <= k < p ==> out[1 + k].id == pins[k].0
            &&& 0 <= k < q ==> out[1 + p + k].id == strangers[k].0 && out[1 + p + k].pairing
                is Discovered
            &&& 0 <= k < others.len() ==> out[1 + p + q + k].id == others[k] && out[1 + p + q
                + k].pairing is Vouched
        }),
{
    let seen = f.seen.listing();
    let targets = LocalFleet::<F>::targets(f.vouches.listing(), f.vouches.listing().len() as int);
    assert(seen.subrange(0, seen.len() as int) =~= seen);
    assert(targets.subrange(0, targets.len() as int) =~= targets);
    lemma_strangers_filter::<F>(seen, pins, seen.len() as int);
    lemma_second_hand_filter(f, targets, pins, targets.len() as int);
    let strangers = LocalFleet::<F>::strangers(seen, pins, seen.len() as int);
    let others = f.second_hand(targets, pins, targets.len() as int);
    let p = pins.len() as int;
    let q = strangers.len() as int;
    if 0 <= k < p {
        assert(f.paired_row(pins[k].0, pins[k].1, now, out[1 + k]));
    }
    if 0 <= k < q {
        assert(f.seen_row(strangers[k].0, strangers[k].1, out[1 + p + k]));
    }
    if 0 <= k < others.len() {
        assert(f.vouched_row(
            others[k],
            f.described(others[k]).unwrap(),
            out[1 + p + q + k],
        ));
    }
}

proof fn lemma_strangers_filter<F: Copy>(
    seen: Seq<(NodeId, Sighting)>,
    pins: Seq<(NodeId, Pin)>,
    n: int,
)
    requires
        0 <= n <= seen.len(),
    ensures
        LocalFleet::<F>::strangers(seen, pins, n) == seen.subrange(0, n).filter(unpinned(pins)),
    decreases n,
{
    reveal(Seq::filter);
    let head = seen.subrange(0, n);
    if n > 0 {
        lemma_strangers_filter::<F>(seen, pins, n - 1);
        assert(head.drop_last() =~= seen.subrange(0, n - 1));
    } else {
        assert(LocalFleet::<F>::strangers(seen, pins, n) =~= head.filter(unpinned(pins)));
    }
}

proof fn lemma_second_hand_filter<F: Copy>(
    f: LocalFleet<F>,
    targets: Seq<NodeId>,
    pins: Seq<(NodeId, Pin)>,
    n: int,
)
    requires
        0 <= n <= targets.len(),
    ensures
        f.second_hand(targets, pins, n) == targets.subrange(0, n).filter(only_claimed(f, pins)),
    decreases n,
{
    reveal(Seq::filter);
    let head = targets.subrange(0, n);
    if n > 0 {
        lemma_second_hand_filter(f, targets, pins, n - 1);
        assert(head.drop_last() =~= targets.subrange(0, n - 1));
    } else {
        assert(f.second_hand(targets, pins, n) =~= head.filter(only_claimed(f, pins)));
    }
}

/// Law: the machines that are spoken of are those that some claim is about,
/// each once.
pub proof fn law_whoever_is_claimed_is_spoken_of<F: Copy>(s: Seq<Claim<F>>, t: NodeId)
    requires
        sorted(s),
    ensures
        LocalFleet::<F>::targets(s, s.len() as int).contains(t) <==> exists|i: int|
            0 <= i < s.len() && (#[trigger] s[i]).peer.node == t,
        forall|i: int, j: int|
            0 <= i < j < LocalFleet::<F>::targets(s, s.len() as int).len() ==> (
            #[trigger] LocalFleet::<F>::targets(s, s.len() as int)[i]) != (
            #[trigger] LocalFleet::<F>::targets(s, s.len() as int)[j]),
{
    lemma_targets::<F>(s, s.len() as int);
    lemma_targets_hold::<F>(s, t, s.len() as int);
}

proof fn lemma_targets_hold<F: Copy>(s: Seq<Claim<F>>, t: NodeId, n: int)
    requires
        0 <= n <= s.len(),
    ensures
        LocalFleet::<F>::targets(s, n).contains(t) <==> exists|i: int|
            0 <= i < n && (#[trigger] s[i]).peer.node == t,
    decreases n,
{
    let all = LocalFleet::<F>::targets(s, n);
    if n > 0 {
        lemma_targets_hold::<F>(s, t, n - 1);
        let front = LocalFleet::<F>::targets(s, n - 1);
        if n >= 2 && s[n - 2].peer.node == s[n - 1].peer.node {
            assert(all == front);
        } else {
            assert(all == front.push(s[n - 1].peer.node));
            if front.contains(t) {
                let i = choose|i: int| 0 <= i < front.len() && front[i] == t;
                assert(all[i] == t);
            }
            if s[n - 1].peer.node == t {
                assert(all[front.len() as int] == t);
            }
            if all.contains(t) {
                let i = choose|i: int| 0 <= i < all.len() && all[i] == t;
                if i < front.len() {
                    assert(front[i] == t);
                }
            }
        }
    }
}

} // verus!
