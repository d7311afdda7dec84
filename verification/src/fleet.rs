//! What this agent knows of the machines around it.
//!
//! Three tables, kept apart because they are worth different things: what a
//! machine said of itself over the authenticated channel, what was heard of
//! it in an unauthenticated beacon, and what another machine claims of it.
//! None of them is written to disk; a restart learns them again. Times are
//! readings of one monotonic clock, in milliseconds.
use crate::discovery::Beacon;
use crate::fabric::{LinkClass, NodeAddress};
use crate::identity::{PinsRead, read_pins};
use crate::node::{lookup, NodeId, NodeMap};
use vstd::prelude::*;

pub mod listing;
pub mod pairing;
pub mod pinning;
pub mod routing;
pub mod vitals;
pub mod vouched;

pub use pinning::{record_pairing, remember_address};
pub use vitals::{Metric, NodeVitals};
pub use vouched::{VouchTable, VouchedPeer};

verus! {

/// How long a machine may be silent before it counts as unreachable, in
/// milliseconds.
pub const UNREACHABLE_AFTER: u64 = 60_000;

/// How many machines that are not paired are remembered at once. Beacons are
/// unauthenticated: without a bound, invented identities would fill memory.
pub const MAX_SIGHTINGS: usize = 256;

/// How long ago a reading was taken. A clock that reads earlier has not
/// advanced.
pub open spec fn since(at: u64, now: u64) -> int {
    if now >= at {
        now - at
    } else {
        0
    }
}

/// A beacon that was heard.
#[derive(Debug)]
pub struct Sighting {
    pub beacon: Beacon,
    pub at: u64,
}

/// What a peer said of itself over the authenticated channel.
#[derive(Debug)]
pub struct PeerReport<F> {
    pub node: NodeId,
    pub name: String,
    pub can_launch: bool,
    pub accelerator: String,
    pub os: String,
    pub vitals: Option<NodeVitals<F>>,
    /// The link this machine reached it over.
    pub link: LinkClass,
    pub addresses: Vec<NodeAddress>,
    /// The highest version of the peer protocol that it speaks.
    pub peer_version_max: u32,
}

/// Whether a machine can run models, and why not.
#[derive(Debug, Clone, PartialEq, Eq)]
pub struct Launchability {
    pub can_launch: bool,
    pub reason: String,
}

impl Launchability {
    /// It can.
    pub fn yes() -> (r: Self)
        ensures
            r.can_launch,
            r.reason@ == Seq::<char>::empty(),
    {
        Launchability { can_launch: true, reason: String::new() }
    }

    /// It cannot.
    pub fn no(reason: &str) -> (r: Self)
        ensures
            !r.can_launch,
            r.reason@ == reason@,
    {
        Launchability { can_launch: false, reason: crate::text::copy(reason) }
    }

    /// An equal answer.
    pub fn copy(&self) -> (r: Self)
        ensures
            r == *self,
    {
        Launchability { can_launch: self.can_launch, reason: self.reason.clone() }
    }
}

/// How far a machine is trusted.
#[derive(Debug, Clone, Copy, PartialEq, Eq, Structural)]
pub enum PairingState {
    /// Paired, and answering.
    Paired,
    /// Paired, and silent.
    Unreachable,
    /// Seen, and trusted by nobody.
    Discovered,
    /// Known only by the claim of another machine.
    Vouched,
}

/// One row of the fleet.
#[derive(Debug)]
pub struct NodeDescriptor<F> {
    pub id: NodeId,
    pub name: String,
    pub is_local: bool,
    pub pairing: PairingState,
    pub addresses: Vec<NodeAddress>,
    pub launchability: Launchability,
    pub agent_version: String,
    pub accelerator: String,
    pub os: String,
    pub vitals: Option<NodeVitals<F>>,
    pub alerts: Vec<String>,
    pub running: Option<String>,
    /// Who claims to know this machine.
    pub vouched_by: Option<NodeId>,
    /// Whom a request to this machine would go through.
    pub reached_via: Option<NodeId>,
}

/// This machine, and what it knows of the others.
#[derive(Debug)]
pub struct LocalFleet<F> {
    pub id: NodeId,
    pub name: String,
    pub addresses: Vec<NodeAddress>,
    pub launchability: Launchability,
    pub accelerator: String,
    pub os: String,
    pub agent_version: String,
    pub seen: NodeMap<Sighting>,
    pub reports: NodeMap<(PeerReport<F>, u64)>,
    pub vouches: VouchTable<F>,
    pub alerts: NodeMap<Vec<String>>,
}

impl<F: Copy> LocalFleet<F> {
    /// A machine that has heard of no other.
    pub fn new(
        id: NodeId,
        name: String,
        addresses: Vec<NodeAddress>,
        launchability: Launchability,
        accelerator: String,
        os: String,
        agent_version: String,
    ) -> (r: Self)
        ensures
            r.id == id,
            r.name == name,
            r.addresses == addresses,
            r.launchability == launchability,
            r.accelerator == accelerator,
            r.os == os,
            r.agent_version == agent_version,
            r.seen.listing().len() == 0,
            r.reports.listing().len() == 0,
            r.vouches.listing().len() == 0,
            r.alerts.listing().len() == 0,
            r.sound(),
    {
        proof {
            crate::node::lemma_lookup_absent(Seq::<(NodeId, Sighting)>::empty(), id);
        }
        LocalFleet {
            id,
            name,
            addresses,
            launchability,
            accelerator,
            os,
            agent_version,
            seen: NodeMap::new(),
            reports: NodeMap::new(),
            vouches: VouchTable::new(),
            alerts: NodeMap::new(),
        }
    }

    /// A machine never takes its own beacon for that of another.
    pub open spec fn sound(self) -> bool {
        self.seen.at(self.id) is None
    }

    /// Whether a beacon from a machine is remembered: never this machine's
    /// own, always that of a machine already seen or paired with, and of a
    /// stranger while there is room.
    pub open spec fn takes_note(&self, id: NodeId, pins: PinsRead) -> bool {
        id != self.id && (self.seen.at(id) is Some || lookup(read_pins(pins), id) is Some
            || self.seen.listing().len() < MAX_SIGHTINGS)
    }

    /// What hearing a beacon makes of the fleet: nothing but the table of
    /// sightings changes, and there at most the row of the machine that the
    /// beacon names.
    pub open spec fn observed(self, beacon: Beacon, pins: PinsRead, now: u64, next: Self) -> bool {
        &&& next == (LocalFleet { seen: next.seen, ..self })
        &&& forall|k: NodeId| #[trigger]
            next.seen.at(k) == (if k == beacon.id && self.takes_note(k, pins) {
                Some(Sighting { beacon, at: now })
            } else {
                self.seen.at(k)
            })
        &&& next.seen.listing().len() == self.seen.listing().len() + (if self.takes_note(
            beacon.id,
            pins,
        ) && self.seen.at(beacon.id) is None {
            1int
        } else {
            0int
        })
    }

    /// Remember a beacon that was heard. Nothing but the table of sightings
    /// changes: a beacon is unauthenticated, and must not move a machine that
    /// is trusted.
    pub fn observe(&mut self, beacon: Beacon, pins: &PinsRead, now: u64)
        ensures
            old(self).observed(beacon, *pins, now, *final(self)),
            old(self).sound() ==> final(self).sound(),
    {
        if beacon.id == self.id {
            return;
        }
        let pinned = match pins {
            Ok(store) => store.is_pinned(beacon.id),
            Err(_) => {
                proof {
                    crate::node::lemma_lookup_absent(read_pins(*pins), beacon.id);
                }
                false
            },
        };
        if self.seen.contains(beacon.id) || pinned || self.seen.len() < MAX_SIGHTINGS {
            self.seen.insert(beacon.id, Sighting { beacon, at: now });
        }
    }

    /// Remember what a peer said of itself.
    pub fn record_report(&mut self, report: PeerReport<F>, now: u64)
        ensures
            *final(self) == (LocalFleet { reports: final(self).reports, ..*old(self) }),
            forall|k: NodeId| #[trigger]
                final(self).reports.at(k) == (if k == report.node {
                    Some((report, now))
                } else {
                    old(self).reports.at(k)
                }),
    {
        self.reports.insert(report.node, (report, now));
    }

    /// Forget what a peer said, because it no longer answers. What it claimed
    /// of other machines stays: they are still part of the fleet, though no
    /// request is routed through a machine that is silent.
    pub fn clear_report(&mut self, node: NodeId)
        ensures
            *final(self) == (LocalFleet { reports: final(self).reports, ..*old(self) }),
            forall|k: NodeId| #[trigger]
                final(self).reports.at(k) == (if k == node {
                    None
                } else {
                    old(self).reports.at(k)
                }),
    {
        let _gone = self.reports.remove(node);
    }

    /// Put alerts against a machine, in place of those that were there.
    pub fn raise(&mut self, node: NodeId, alerts: Vec<String>)
        ensures
            *final(self) == (LocalFleet { alerts: final(self).alerts, ..*old(self) }),
            forall|k: NodeId| #[trigger]
                final(self).alerts.at(k) == (if k == node {
                    Some(alerts)
                } else {
                    old(self).alerts.at(k)
                }),
    {
        self.alerts.insert(node, alerts);
    }

    /// Whether a sighting outlives the housekeeping: it is recent, or the
    /// machine is paired, or nobody can say which machines are.
    pub open spec fn outlives(id: NodeId, s: Sighting, pins: PinsRead, now: u64) -> bool {
        since(s.at, now) < UNREACHABLE_AFTER || pins is Err || lookup(read_pins(pins), id) is Some
    }

    /// Drop what nothing has confirmed for too long: strangers that fell
    /// silent, and claims that were not repeated. A machine that was paired is
    /// kept whether or not it is switched on, and pins that cannot be read
    /// are not taken for none.
    pub fn prune(&mut self, pins: &PinsRead, now: u64)
        ensures
            *final(self) == (LocalFleet {
                seen: final(self).seen,
                vouches: final(self).vouches,
                ..*old(self)
            }),
            forall|k: NodeId| #[trigger]
                final(self).seen.at(k) == (match old(self).seen.at(k) {
                    Some(s) => if Self::outlives(k, s, *pins, now) {
                        Some(s)
                    } else {
                        None
                    },
                    None => None,
                }),
            final(self).vouches.listing() == vouched::kept(
                old(self).vouches.listing(),
                vouched::heard_lately::<F>(now),
                old(self).vouches.listing().len() as int,
            ),
            old(self).sound() ==> final(self).sound(),
    {
        let mut stale: Vec<NodeId> = Vec::new();
        let mut i: usize = 0;
        let n = self.seen.len();
        let ghost all = self.seen.listing();
        while i < n
            invariant
                i <= n,
                n == all.len(),
                all == self.seen.listing(),
                crate::node::ascending(all),
                forall|k: int|
                    0 <= k < i && !Self::outlives(all[k].0, all[k].1, *pins, now)
                        ==> stale@.contains((#[trigger] all[k]).0),
                forall|id: NodeId| #[trigger]
                    stale@.contains(id) ==> (lookup(all, id) matches Some(s) && !Self::outlives(
                        id,
                        s,
                        *pins,
                        now,
                    )),
            decreases n - i,
        {
            let id = self.seen.id_at(i);
            let fresh = now.saturating_sub(self.seen.value_at(i).at) < UNREACHABLE_AFTER;
            let keep = fresh || match pins {
                Ok(store) => store.is_pinned(id),
                Err(_) => true,
            };
            let ghost before = stale@;
            if !keep {
                stale.push(id);
                assert(stale@[before.len() as int] == all[i as int].0);
            }
            proof {
                assert forall|k: int|
                    0 <= k < i + 1 && !Self::outlives(
                        all[k].0,
                        all[k].1,
                        *pins,
                        now,
                    ) implies stale@.contains((#[trigger] all[k]).0) by {
                    if k < i {
                        let j = choose|j: int| 0 <= j < before.len() && before[j] == all[k].0;
                        assert(stale@[j] == all[k].0);
                    }
                }
                crate::node::lemma_lookup_entry(all, i as int);
                assert forall|x: NodeId| #[trigger] stale@.contains(x) implies (lookup(
                    all,
                    x,
                ) matches Some(s) && !Self::outlives(x, s, *pins, now)) by {
                    let j = choose|j: int| 0 <= j < stale@.len() && stale@[j] == x;
                    if j < before.len() {
                        assert(before[j] == x);
                        assert(before.contains(x));
                    }
                }
            }
            i += 1;
        }
        let ghost first = *self;
        let mut j: usize = 0;
        while j < stale.len()
            invariant
                j <= stale.len(),
                *self == (LocalFleet { seen: self.seen, ..first }),
                forall|k: NodeId| #[trigger]
                    self.seen.at(k) == (if stale@.subrange(0, j as int).contains(k) {
                        None
                    } else {
                        first.seen.at(k)
                    }),
            decreases stale.len() - j,
        {
            let _gone = self.seen.remove(stale[j]);
            proof {
                let short = stale@.subrange(0, j as int);
                let long = stale@.subrange(0, j + 1);
                assert(long =~= short.push(stale@[j as int]));
                assert forall|k: NodeId| long.contains(k) == (short.contains(k) || k
                    == stale@[j as int]) by {
                    if short.contains(k) {
                        let x = choose|x: int| 0 <= x < short.len() && short[x] == k;
                        assert(long[x] == k);
                    }
                    if k == stale@[j as int] {
                        assert(long[j as int] == k);
                    }
                }
            }
            j += 1;
        }
        assert(stale@.subrange(0, stale@.len() as int) =~= stale@);
        proof {
            assert forall|k: NodeId| #[trigger]
                self.seen.at(k) == (match first.seen.at(k) {
                    Some(s) => if Self::outlives(k, s, *pins, now) {
                        Some(s)
                    } else {
                        None
                    },
                    None => None,
                }) by {
                if stale@.contains(k) {
                } else if first.seen.at(k) is Some {
                    let m = crate::node::lemma_lookup_found(all, k);
                    assert(all[m].0 == k);
                }
            }
        }
        self.vouches.prune(now);
    }
}

/// Law: a flood of invented beacons cannot grow the table of sightings
/// without bound. However many beacons of machines that are not paired are
/// heard, one after the other, the table holds no more than its limit, or
/// than it held before the first of them.
pub proof fn law_a_flood_of_strangers_is_bounded<F: Copy>(
    fleets: Seq<LocalFleet<F>>,
    beacons: Seq<Beacon>,
    pins: Seq<PinsRead>,
    times: Seq<u64>,
)
    requires
        fleets.len() == beacons.len() + 1,
        pins.len() == beacons.len(),
        times.len() == beacons.len(),
        forall|i: int|
            0 <= i < beacons.len() ==> (#[trigger] fleets[i]).observed(
                beacons[i],
                pins[i],
                times[i],
                fleets[i + 1],
            ) && lookup(read_pins(pins[i]), beacons[i].id) is None,
    ensures
        fleets.last().seen.listing().len() <= MAX_SIGHTINGS || fleets.last().seen.listing().len()
            <= fleets[0].seen.listing().len(),
    decreases beacons.len(),
{
    let n = beacons.len() as int;
    if n > 0 {
        assert(fleets[n - 1].observed(beacons[n - 1], pins[n - 1], times[n - 1], fleets[n]));
        assert forall|i: int| 0 <= i < n - 1 implies (#[trigger] fleets.drop_last()[i]).observed(
            beacons.drop_last()[i],
            pins.drop_last()[i],
            times.drop_last()[i],
            fleets.drop_last()[i + 1],
        ) && lookup(read_pins(pins.drop_last()[i]), beacons.drop_last()[i].id) is None by {
            assert(fleets[i].observed(beacons[i], pins[i], times[i], fleets[i + 1]));
        }
        law_a_flood_of_strangers_is_bounded(
            fleets.drop_last(),
            beacons.drop_last(),
            pins.drop_last(),
            times.drop_last(),
        );
    }
}

/// Law: a beacon is noted exactly where its machine is another one that is
/// already known, paired, or for which there is room; nothing else that is
/// known changes.
pub proof fn law_a_beacon_is_noted<F: Copy>(
    f: LocalFleet<F>,
    beacon: Beacon,
    pins: PinsRead,
    now: u64,
    g: LocalFleet<F>,
    other: NodeId,
)
    requires
        f.observed(beacon, pins, now, g),
    ensures
        beacon.id != f.id && (f.seen.at(beacon.id) is Some || lookup(read_pins(pins), beacon.id)
            is Some || f.seen.listing().len() < 256) ==> g.seen.at(beacon.id) == Some(
            Sighting { beacon, at: now },
        ),
        beacon.id == f.id || !(f.seen.at(beacon.id) is Some || lookup(read_pins(pins), beacon.id)
            is Some || f.seen.listing().len() < 256) ==> g.seen.at(beacon.id) == f.seen.at(
            beacon.id,
        ),
        other != beacon.id ==> g.seen.at(other) == f.seen.at(other),
        g.reports == f.reports && g.vouches == f.vouches && g.alerts == f.alerts,
{
}

/// Law: what was seen is kept for a minute, and for good where the machine is
/// paired or nobody can say whether it is.
pub proof fn law_a_sighting_lasts_a_minute<F: Copy>(
    id: NodeId,
    s: Sighting,
    pins: PinsRead,
    now: u64,
)
    ensures
        LocalFleet::<F>::outlives(id, s, pins, now) <==> (now < s.at + 60_000 || pins is Err
            || lookup(read_pins(pins), id) is Some),
{
}

} // verus!
