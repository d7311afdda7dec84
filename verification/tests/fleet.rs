#![allow(dead_code, unused_imports)]
use metralectl_agent::discovery::Beacon;
use metralectl_agent::error::AgentError;
use metralectl_agent::fabric::{LinkClass, NodeAddress};
use metralectl_agent::fleet::pairing::{
    pair_at, trust, DialAnswer, PairOutcome, PairStep, PairWalk, Paired,
};
use metralectl_agent::fleet::routing::{ControlRoute, Socket};
use metralectl_agent::fleet::vitals::{no_vitals, vitals_from_device, DeviceReadings};
use metralectl_agent::fleet::vouched::MAX_VOUCHED;
use metralectl_agent::fleet::{
    record_pairing, remember_address, Launchability, LocalFleet, Metric, NodeDescriptor, NodeVitals,
    PairingState, PeerReport, VouchedPeer, UNREACHABLE_AFTER,
};
use metralectl_agent::identity::{PinStore, PinsRead};
use metralectl_agent::node::NodeId;

/// A fleet view with the pins, the clock and the readings it is asked with.
struct World {
    fleet: LocalFleet<f32>,
    pins: PinsRead,
    now: u64,
    vitals: Option<NodeVitals<f32>>,
}

impl World {
    fn new() -> Self {
        World {
            fleet: LocalFleet::new(
                NodeId::from_bytes([0xe1; 32]),
                "spark-256a".to_owned(),
                vec![roce("10.10.10.9")],
                Launchability::yes(),
                "GB10".to_owned(),
                "Linux".to_owned(),
                "0.1.3".to_owned(),
            ),
            pins: Ok(PinStore::new()),
            now: 1_000_000,
            vitals: None,
        }
    }

    fn id(&self) -> NodeId {
        self.fleet.id
    }

    fn store(&mut self) -> &mut PinStore {
        self.pins.as_mut().expect("the pins read")
    }

    fn is_pinned(&self, id: NodeId) -> bool {
        self.pins.as_ref().expect("the pins read").is_pinned(id)
    }

    fn observe(&mut self, b: Beacon) {
        self.fleet.observe(b, &self.pins, self.now);
    }

    fn record_report(&mut self, r: PeerReport<f32>) {
        self.fleet.record_report(r, self.now);
    }

    fn clear_report(&mut self, id: NodeId) {
        self.fleet.clear_report(id);
    }

    fn record_vouches(&mut self, via: NodeId, digest: Vec<VouchedPeer<f32>>) {
        self.fleet.record_vouches(via, digest, self.now);
    }

    fn choose_voucher(&self, id: NodeId) -> Option<NodeId> {
        self.fleet.choose_voucher(id)
    }

    fn prune(&mut self) {
        self.fleet.prune(&self.pins, self.now);
    }

    fn unpair(&mut self, id: NodeId) -> bool {
        let pins = self.pins.as_mut().expect("the pins read");
        self.fleet.unpair(pins, id)
    }

    fn record_pairing(
        &mut self,
        id: NodeId,
        key: &str,
        name: &str,
        at: u64,
        addr: Option<String>,
        controller: bool,
    ) {
        record_pairing(self.store(), id, key, name, at, addr, controller);
    }

    fn nodes(&self) -> Vec<NodeDescriptor<f32>> {
        self.fleet.nodes(&self.pins, self.vitals, &None, self.now)
    }

    fn control_address(&self, id: NodeId) -> Option<String> {
        self.fleet.control_address(&self.pins, id)
    }

    /// Every address in these tests can be dialled.
    fn plan_control_route(&self, id: NodeId, port: u16) -> Result<ControlRoute, AgentError> {
        self.fleet.plan_control_route(&self.pins, id, port, true)
    }
}

fn roce(addr: &str) -> NodeAddress {
    NodeAddress {
        iface: "enp1s0f0np0".to_owned(),
        addr: addr.to_owned(),
        class: LinkClass::Roce,
        speed_mbps: Some(200_000),
        prefix_len: 30,
        rdma: true,
    }
}

fn beacon(id: NodeId, name: &str, can_launch: bool) -> Beacon {
    Beacon {
        id,
        name: name.to_owned(),
        peer_port: 34334,
        addresses: vec!["10.10.10.10".to_owned()],
        can_launch,
        accelerator: "GB10".to_owned(),
    }
}

/// A machine with its own key.
struct Identity {
    byte: u8,
}

impl Identity {
    fn id(&self) -> NodeId {
        NodeId::from_bytes([self.byte; 32])
    }

    fn key(&self) -> String {
        format!("{:02x}", self.byte).repeat(32)
    }
}

#[test]
fn a_lone_agent_reports_itself_and_nothing_else() {
    let mut f = World::new();
    let nodes = f.nodes();
    assert_eq!(nodes.len(), 1);
    assert!(nodes[0].is_local);
    assert_eq!(nodes[0].pairing, PairingState::Paired);
    assert_eq!(nodes[0].addresses[0].class, LinkClass::Roce);
}

#[test]
fn a_discovered_node_is_visible_trusted_by_nobody_and_reports_no_vitals() {
    // The whole point of separating discovery from trust. Anything a stranger
    // broadcasts must be renderable without being believable.
    let mut f = World::new();
    f.observe(beacon(NodeId::from_bytes([7; 32]), "spark-43fa", true));

    let peer = f
        .nodes()
        .into_iter()
        .find(|n| !n.is_local)
        .expect("the beacon is listed");
    assert_eq!(peer.pairing, PairingState::Discovered);
    assert!(
        peer.vitals.is_none(),
        "telemetry from an unpaired machine is not evidence about your fleet"
    );
    assert!(peer.alerts.is_empty());
}

#[test]
fn a_beacon_cannot_write_itself_into_the_pin_store() {
    let mut f = World::new();
    let stranger = NodeId::from_bytes([9; 32]);
    f.observe(beacon(stranger, "evil", true));
    assert!(
        !f.is_pinned(stranger),
        "observing a beacon must never grant trust"
    );
}

#[test]
fn an_agent_ignores_its_own_beacon() {
    // Every agent hears itself on the multicast group. Listing yourself twice
    // would double every fleet and make the local node look like a peer.
    let mut f = World::new();
    f.observe(beacon(f.id(), "spark-256a", true));
    assert_eq!(f.nodes().len(), 1);
}

#[test]
fn a_paired_node_that_is_switched_off_stays_in_the_fleet_as_unreachable() {
    // A fleet that forgets its members when they sleep is not a fleet, and a
    // node vanishing is indistinguishable from a node being removed.
    let mut f = World::new();
    let peer = Identity { byte: 0x51 };
    f.record_pairing(
        peer.id(),
        &peer.key(),
        "spark-43fa",
        1_756_000_000,
        None,
        false,
    );

    let listed = f
        .nodes()
        .into_iter()
        .find(|n| n.id == peer.id())
        .expect("a pinned peer is listed even with no sighting");
    assert_eq!(listed.pairing, PairingState::Unreachable);
    assert!(!listed.launchability.can_launch);
    assert!(
        listed.launchability.reason.contains("reachable"),
        "the reason has to say what is wrong: {}",
        listed.launchability.reason
    );
}

#[test]
fn a_paired_node_that_is_answering_is_reported_as_paired() {
    let mut f = World::new();
    let peer = Identity { byte: 0x51 };
    f.record_pairing(
        peer.id(),
        &peer.key(),
        "spark-43fa",
        0,
        None,
        false,
    );
    f.observe(beacon(peer.id(), "spark-43fa", true));

    let listed = f
        .nodes()
        .into_iter()
        .find(|n| n.id == peer.id())
        .expect("listed");
    assert_eq!(listed.pairing, PairingState::Paired);
    assert!(listed.launchability.can_launch);
    // Still no vitals: those come over the authenticated peer channel, not from
    // a beacon.
    assert!(listed.vitals.is_none());
}

#[test]
fn a_node_is_listed_once_even_when_pinned_and_seen() {
    let mut f = World::new();
    let peer = Identity { byte: 0x51 };
    f.record_pairing(
        peer.id(),
        &peer.key(),
        "p",
        0,
        None,
        false,
    );
    f.observe(beacon(peer.id(), "p", true));
    assert_eq!(f.nodes().iter().filter(|n| n.id == peer.id()).count(), 1);
}

#[test]
fn a_beacon_claiming_it_cannot_launch_is_taken_at_its_word() {
    let mut f = World::new();
    f.observe(beacon(NodeId::from_bytes([3; 32]), "laptop", false));
    let peer = f.nodes().into_iter().find(|n| !n.is_local).expect("listed");
    assert!(!peer.launchability.can_launch);
}

/// OS travels on the authenticated channel and nowhere else. A machine we
/// have only *seen* has told us nothing about itself we can believe, and the
/// interface must show a blank rather than a guess.
#[test]
fn a_discovered_node_reports_no_operating_system() {
    let mut f = World::new();
    f.observe(beacon(NodeId::from_bytes([4; 32]), "stranger", true));
    let peer = f.nodes().into_iter().find(|n| !n.is_local).expect("listed");
    assert_eq!(peer.os, "", "a beacon must not be able to claim an OS");
}

/// And this machine does report its own, because it is the one thing here we
/// know first-hand.
#[test]
fn the_local_node_reports_its_operating_system() {
    let mut f = World::new();
    let me = f.nodes().into_iter().find(|n| n.is_local).expect("local");
    assert!(!me.os.is_empty(), "this machine knows what it is running");
}

fn report(id: NodeId, name: &str, can_launch: bool) -> PeerReport<f32> {
    PeerReport {
        node: id,
        name: name.to_owned(),
        can_launch,
        accelerator: "GB10".to_owned(),
        os: "Linux".to_owned(),
        vitals: None,
        link: LinkClass::Roce,
        addresses: vec![roce("10.10.10.10")],
        peer_version_max: 1,
    }
}

/// Enterprise wifi filters multicast and the Spark links are point-to-point
/// /30s, so a paired machine having no beacon is ordinary — it is the case
/// `peer add` exists for. Launchability was read from the beacon alone, so
/// such a machine reported "not reachable right now" and could not be given a
/// rank, moments after completing an authenticated handshake with us.
#[test]
fn a_paired_peer_we_have_spoken_to_is_launchable_without_a_beacon() {
    let mut f = World::new();
    let peer = Identity { byte: 0x51 };
    f.record_pairing(
        peer.id(),
        &peer.key(),
        "spark-43fa",
        0,
        None,
        false,
    );
    // No `observe`: nothing was ever heard on multicast.
    f.record_report(report(peer.id(), "spark-43fa", true));

    let listed = f
        .nodes()
        .into_iter()
        .find(|n| n.id == peer.id())
        .expect("listed");
    assert_eq!(listed.pairing, PairingState::Paired);
    assert!(
        listed.launchability.can_launch,
        "a peer we authenticated with was called unreachable: {:?}",
        listed.launchability.reason
    );
}

/// The authenticated channel outranks the beacon, and it has to: a beacon is
/// unauthenticated, so believing it over something that proved it holds the
/// pinned key would let anyone on the network decide whether a machine of ours
/// is allowed to hold a rank.
#[test]
fn an_authenticated_report_outranks_a_beacon_that_disagrees() {
    let mut f = World::new();
    let peer = Identity { byte: 0x51 };
    f.record_pairing(
        peer.id(),
        &peer.key(),
        "laptop",
        0,
        None,
        false,
    );
    // The beacon says it can launch; the machine itself says it cannot.
    f.observe(beacon(peer.id(), "laptop", true));
    f.record_report(report(peer.id(), "laptop", false));

    let listed = f
        .nodes()
        .into_iter()
        .find(|n| n.id == peer.id())
        .expect("listed");
    assert!(
        !listed.launchability.can_launch,
        "a beacon overrode the machine's own authenticated answer"
    );
}

#[test]
fn pairing_refuses_a_code_of_the_wrong_shape_without_touching_the_network() {
    let mut f = World::new();
    let node = NodeId::from_bytes([5; 32]);
    f.observe(beacon(node, "spark-43fa", true));
    let err = f
        .fleet
        .pair(node, "12", true)
        .expect_err("a two-digit code is not a code");
    assert!(err.contains("digits"));
}

#[test]
fn pairing_a_node_that_was_never_seen_is_refused() {
    let mut f = World::new();
    let err = f
        .fleet
        .pair(NodeId::from_bytes([4; 32]), "12345678", true)
        .expect_err("cannot pair with something that is not there");
    assert!(err.contains("not visible"));
}

#[test]
fn unpairing_reports_whether_there_was_anything_to_undo() {
    let mut f = World::new();
    let peer = Identity { byte: 0x51 };
    f.record_pairing(
        peer.id(),
        &peer.key(),
        "p",
        0,
        None,
        false,
    );

    assert!(f.unpair(peer.id()));
    assert!(!f.unpair(peer.id()));
}

#[test]
fn pruning_keeps_paired_nodes_and_drops_stale_strangers() {
    let mut f = World::new();
    let stranger = NodeId::from_bytes([8; 32]);
    f.observe(beacon(stranger, "stranger", true));
    // Fresh sighting survives.
    f.prune();
    assert!(f.nodes().iter().any(|n| n.id == stranger));
    // One that has gone silent does not, unless it is paired.
    let paired = NodeId::from_bytes([0x88; 32]);
    f.record_pairing(paired, "aa", "mine", 0, None, false);
    f.observe(beacon(paired, "mine", true));
    f.now += UNREACHABLE_AFTER;
    f.prune();
    assert!(!f.nodes().iter().any(|n| n.id == stranger));
    assert!(f.fleet.seen.contains(paired));
}

#[test]
fn the_local_node_carries_whatever_vitals_the_machine_can_answer() {
    let mut f = World::new();
    f.vitals = Some(NodeVitals {
        accelerator_util: Metric::Reading(96.0),
        memory_total_bytes: Metric::Unsupported,
        ..no_vitals()
    });
    let local = f.nodes().remove(0);
    let v = local.vitals.expect("the local node reports vitals");
    assert_eq!(v.accelerator_util, Metric::Reading(96.0));
    assert_eq!(v.memory_total_bytes, Metric::Unsupported);
}

#[test]
fn an_unanswerable_device_field_becomes_unsupported_not_zero() {
    // The GB10 case, at the conversion boundary: nvidia-smi answers N/A for
    // memory because Grace-Blackwell has no framebuffer.
    let d = DeviceReadings {
        gpu_util_pct: Some(96.0f32),
        sm_clock_mhz: Some(2405.0),
        temperature_c: None,
        power_w: None,
        memory_used_frac: None,
        memory_total_bytes: None,
    };
    let v = vitals_from_device(&d, None, true, 10, Some(1500));
    assert_eq!(v.accelerator_util, Metric::Reading(96.0));
    assert_eq!(v.memory_total_bytes, Metric::Unsupported);
    assert_eq!(v.memory_used_frac, Metric::Unsupported);
    assert_eq!(v.disk_free_bytes, Metric::Unsupported);
    assert_ne!(v.memory_total_bytes, Metric::Reading(0.0));
}

#[test]
fn a_paired_peers_address_survives_this_agent_restarting() {
    // Sightings live in memory; pins live on disk. Without remembering the
    // address, restarting the agent made a paired machine that was up and
    // answering render as "no usable network link" until mDNS happened to
    // re-announce it — up to a minute on a quiet network, and indistinguishable
    // from a peer with no fabric at all.
    let peer = Identity { byte: 0x51 };
    let mut f = World::new();
    // The address is recorded by the PAIRING — `peer add` pins the address the
    // ceremony actually completed over — and refreshed by an authenticated
    // poll. It used to be written here by `observe`, from an unauthenticated
    // beacon; see `a_beacon_cannot_move_a_pinned_peer` for why it is not.
    f.record_pairing(
        peer.id(),
        &peer.key(),
        "spark-43fa",
        0,
        Some("10.10.10.10".to_owned()),
        false,
    );

    // A fresh process, no sightings at all.
    let mut restarted = World::new();
    restarted.pins = f.pins;
    let listed = restarted
        .nodes()
        .into_iter()
        .find(|n| n.id == peer.id())
        .expect("a pinned peer is still listed");
    assert_eq!(
        listed.addresses.first().map(|a| a.addr.as_str()),
        Some("10.10.10.10"),
        "a restart must not forget where a paired machine lives"
    );
    // Remembered, not re-verified: the class stays unverified until the peer
    // says so over the authenticated channel.
    assert_eq!(
        listed.addresses[0].class,
        LinkClass::Unverified
    );
}

#[test]
fn an_unverified_link_is_usable_but_never_preferred_and_never_warns() {
    // It is an absence of information. Treating it as a problem would invent
    // one; treating it as a preference would let an unauthenticated beacon
    // outrank a link we measured ourselves.
    assert!(LinkClass::Unverified.usable_for_cluster());
    assert!(!LinkClass::Unverified.warns());
    assert!(LinkClass::Unverified.rank() < LinkClass::Ethernet.rank());
    assert!(LinkClass::Unverified.rank() > LinkClass::Virtual.rank());
}

/// What an authenticated poll learned is kept; an unknown machine gets no pin.
#[test]
fn an_address_is_remembered_only_for_a_pinned_machine() {
    let mut f = World::new();
    let peer = Identity { byte: 0x51 };
    assert!(!remember_address(f.store(), peer.id(), "10.10.10.10"));
    assert!(!f.is_pinned(peer.id()));
    f.record_pairing(peer.id(), &peer.key(), "p", 7, None, true);
    assert!(remember_address(f.store(), peer.id(), "10.10.10.10"));
    assert!(!remember_address(f.store(), peer.id(), "10.10.10.10"), "nothing changed");
    let pins = f.pins.as_ref().expect("read");
    let pin = pins.pins.get(peer.id()).expect("pinned");
    assert_eq!(pin.last_address.as_deref(), Some("10.10.10.10"));
    assert!(pin.controller && !pin.bench);
    assert_eq!(pin.paired_at, 7);
}

/// A machine that has told us its name over the authenticated channel is
/// listed by it, whatever a beacon or the pin says; and by nothing that could
/// rewrite what a reader sees.
#[test]
fn a_reported_name_outranks_the_beacon_and_the_pin() {
    let mut f = World::new();
    let peer = Identity { byte: 0x52 };
    f.record_pairing(peer.id(), &peer.key(), "as-pinned", 0, None, false);
    let named = |f: &World| {
        f.nodes()
            .into_iter()
            .find(|n| n.id == peer.id())
            .expect("listed")
            .name
    };
    assert_eq!(named(&f), "as-pinned");
    f.observe(beacon(peer.id(), "as-announced", true));
    assert_eq!(named(&f), "as-announced");
    f.record_report(report(peer.id(), "as-\u{1b}[2Jreported\n", true));
    assert_eq!(named(&f), "as-[2Jreported");
}
