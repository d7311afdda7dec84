#![allow(dead_code, unused_imports)]
use metralectl_agent::discovery::Beacon;
use metralectl_agent::error::AgentError;
use metralectl_agent::fabric::{LinkClass, NodeAddress};
use metralectl_agent::fleet::pairing::{
    pair_at, trust, DialAnswer, PairOutcome, PairStep, PairWalk, Paired,
};
use metralectl_agent::fleet::routing::{ControlRoute, Socket};
use metralectl_agent::fleet::vitals::{no_vitals, vitals_from_device, DeviceReadings};
use metralectl_agent::fleet::vouched::MAX_VOUCHED;
use metralectl_agent::fleet::{
    record_pairing, remember_address, Launchability, LocalFleet, Metric, NodeDescriptor, NodeVitals,
    PairingState, PeerReport, VouchedPeer, UNREACHABLE_AFTER,
};
use metralectl_agent::identity::{PinStore, PinsRead};
use metralectl_agent::node::NodeId;

/// A fleet view with the pins, the clock and the readings it is asked with.
struct World {
    fleet: LocalFleet<f32>,
    pins: PinsRead,
    now: u64,
    vitals: Option<NodeVitals<f32>>,
}

impl World {
    fn new() -> Self {
        World {
            fleet: LocalFleet::new(
                NodeId::from_bytes([0xe1; 32]),
                "spark-256a".to_owned(),
                vec![roce("10.10.10.9")],
                Launchability::yes(),
                "GB10".to_owned(),
                "Linux".to_owned(),
                "0.1.3".to_owned(),
            ),
            pins: Ok(PinStore::new()),
            now: 1_000_000,
            vitals: None,
        }
    }

    fn id(&self) -> NodeId {
        self.fleet.id
    }

    fn store(&mut self) -> &mut PinStore {
        self.pins.as_mut().expect("the pins read")
    }

    fn is_pinned(&self, id: NodeId) -> bool {
        self.pins.as_ref().expect("the pins read").is_pinned(id)
    }

    fn observe(&mut self, b: Beacon) {
        self.fleet.observe(b, &self.pins, self.now);
    }

    fn record_report(&mut self, r: PeerReport<f32>) {
        self.fleet.record_report(r, self.now);
    }

    fn clear_report(&mut self, id: NodeId) {
        self.fleet.clear_report(id);
    }

    fn record_vouches(&mut self, via: NodeId, digest: Vec<VouchedPeer<f32>>) {
        self.fleet.record_vouches(via, digest, self.now);
    }

    fn choose_voucher(&self, id: NodeId) -> Option<NodeId> {
        self.fleet.choose_voucher(id)
    }

    fn prune(&mut self) {
        self.fleet.prune(&self.pins, self.now);
    }

    fn unpair(&mut self, id: NodeId) -> bool {
        let pins = self.pins.as_mut().expect("the pins read");
        self.fleet.unpair(pins, id)
    }

    fn record_pairing(
        &mut self,
        id: NodeId,
        key: &str,
        name: &str,
        at: u64,
        addr: Option<String>,
        controller: bool,
    ) {
        record_pairing(self.store(), id, key, name, at, addr, controller);
    }

    fn nodes(&self) -> Vec<NodeDescriptor<f32>> {
        self.fleet.nodes(&self.pins, self.vitals, &None, self.now)
    }

    fn control_address(&self, id: NodeId) -> Option<String> {
        self.fleet.control_address(&self.pins, id)
    }

    /// Every address in these tests can be dialled.
    fn plan_control_route(&self, id: NodeId, port: u16) -> Result<ControlRoute, AgentError> {
        self.fleet.plan_control_route(&self.pins, id, port, true)
    }
}

fn roce(addr: &str) -> NodeAddress {
    NodeAddress {
        iface: "enp1s0f0np0".to_owned(),
        addr: addr.to_owned(),
        class: LinkClass::Roce,
        speed_mbps: Some(200_000),
        prefix_len: 30,
        rdma: true,
    }
}

fn beacon(id: NodeId, name: &str, can_launch: bool) -> Beacon {
    Beacon {
        id,
        name: name.to_owned(),
        peer_port: 34334,
        addresses: vec!["10.10.10.10".to_owned()],
        can_launch,
        accelerator: "GB10".to_owned(),
    }
}

/// A machine with its own key.
struct Identity {
    byte: u8,
}

impl Identity {
    fn id(&self) -> NodeId {
        NodeId::from_bytes([self.byte; 32])
    }

    fn key(&self) -> String {
        format!("{:02x}", self.byte).repeat(32)
    }
}

/// mDNS is unauthenticated: anything on the LAN can announce any id. Without a
/// bound, a burst of invented ids grows the sightings table for the whole
/// `UNREACHABLE_AFTER` window at whatever rate the network allows.
#[test]
fn a_flood_of_invented_beacons_cannot_grow_the_table_without_bound() {
    let mut f = World::new();
    // Fixed numbers, NOT `MAX_SIGHTINGS`: a test that derives both its input and
    // its expectation from the constant passes for any value of it, including
    // one so large the bound is decorative. These say what a fleet console must
    // never do, independently of what the constant happens to be today.
    const FLOOD: usize = 5_000;
    const SANE_CEILING: usize = 1_000;
    for i in 0..FLOOD {
        let mut id = [0u8; 32];
        id[..8].copy_from_slice(&(i as u64).to_le_bytes());
        f.observe(beacon(NodeId::from_bytes(id), "stranger", false));
    }
    let n = f.fleet.seen.len();
    assert!(
        n <= SANE_CEILING,
        "{FLOOD} invented beacons left {n} sightings; the design target is 1-8 machines"
    );
}

/// The bound must never cost you a machine you actually paired.
#[test]
fn a_paired_machine_is_still_recorded_once_the_table_is_full() {
    let mut f = World::new();
    let mine = NodeId::from_bytes([9; 32]);
    f.record_pairing(
        mine,
        "ab".repeat(32).as_str(),
        "real-peer",
        0,
        None,
        false,
    );

    for i in 0..5_000 {
        let mut id = [0u8; 32];
        id[..8].copy_from_slice(&(i as u64).to_le_bytes());
        f.observe(beacon(NodeId::from_bytes(id), "stranger", false));
    }
    // The real peer announces itself after the flood has filled the table.
    f.observe(beacon(mine, "real-peer", true));
    assert!(
        f.fleet.seen.contains(mine),
        "a pinned peer must never be crowded out by strangers"
    );
}

/// A pin store that cannot be READ is not a fleet with no pins.
///
/// `prune` keeps pinned peers regardless of age — that is its stated contract,
/// because a machine you paired is yours whether or not it is switched on. Read
/// the pins as "none" on an I/O error and the contract inverts: the idle
/// pinned peers are exactly the ones dropped, and they stay dropped for as long
/// as the file is unreadable.
#[test]
fn an_unreadable_pin_store_does_not_evict_the_fleet_it_cannot_see() {
    let mut f = World::new();
    let mine = NodeId::from_bytes([7; 32]);
    f.record_pairing(
        mine,
        "cd".repeat(32).as_str(),
        "switched-off-dgx",
        0,
        None,
        false,
    );
    f.observe(beacon(mine, "switched-off-dgx", true));

    // It has since been switched off for longer than the window: without the
    // pin, this sighting is stale and prune drops it.
    f.now += UNREACHABLE_AFTER + 1_000;

    // Now the pin file becomes unreadable — a partial write, a bad disk, a
    // half-finished save.
    f.pins = Err("expected an object".to_owned());

    f.prune();
    assert!(
        f.fleet.seen.contains(mine),
        "a pinned peer was evicted because its pin file could not be parsed; \
         the operator would see their fleet vanish over an I/O error"
    );
}

/// An mDNS beacon is unauthenticated and a `NodeId` is a public key
/// fingerprint that rides in every one of them, so "claims to be a peer you
/// trust" is not a thing an attacker has to guess.
///
/// `observe` used to call `remember_address`, which writes `last_address` into
/// the PIN store — three lines under a comment promising it "only ever writes
/// into the sightings table". Anything on the LAN could therefore rewrite where
/// a trusted machine was believed to live, persistently: the agent dials the
/// attacker, the real machine reads as unreachable, and a restart does not
/// clear it. SPKI pinning refuses the impersonation, so this was redirection
/// rather than key compromise — which is exactly the kind of bug that survives,
/// because nothing visibly breaks.
#[test]
fn a_beacon_cannot_move_a_pinned_peer() {
    let peer = Identity { byte: 0x51 };
    let mut f = World::new();
    f.record_pairing(
        peer.id(),
        &peer.key(),
        "spark-43fa",
        0,
        Some("10.10.10.10".to_owned()),
        false,
    );

    // A hostile beacon claiming that peer's id, from somewhere else entirely.
    let mut hostile = beacon(peer.id(), "spark-43fa", true);
    hostile.addresses = vec!["10.10.10.99".to_owned()];
    f.observe(hostile);

    assert_eq!(
        f.pins
            .as_ref()
            .expect("read")
            .pins
            .get(peer.id())
            .expect("pinned")
            .last_address
            .as_deref(),
        Some("10.10.10.10"),
        "an unauthenticated beacon must not rewrite a trusted peer's address"
    );
}

/// A beacon has always carried the peer's own `peer_port`, and the poll threw
/// it away — every peer was dialled on THIS agent's port instead. That is
/// correct only while every agent binds the same one, which is true today and
/// is exactly the assumption that makes a per-machine port impossible to add.
///
/// It is also why a pin can only remember an IP: storing a port would persist
/// a number nothing consults.
#[test]
fn a_peer_is_dialled_on_the_port_it_advertised() {
    let mut f = World::new();
    let mine = NodeId::from_bytes([3; 32]);
    f.record_pairing(
        mine,
        "ef".repeat(32).as_str(),
        "odd-port-peer",
        0,
        Some("10.10.10.10".to_owned()),
        false,
    );

    let mut b = beacon(mine, "odd-port-peer", true);
    b.peer_port = 34999;
    f.observe(b);

    let dials = f.fleet.dialable_peers(f.pins.as_ref().expect("reads"));
    let (_, dial) = dials
        .iter()
        .find(|(id, _)| *id == mine)
        .expect("a pinned, announcing peer is dialable");
    assert_eq!(
        dial.port,
        Some(34999),
        "the port the PEER announced must reach the dial, not this agent's own"
    );
}

/// A peer that is not announcing has no port to offer, and the caller falls
/// back to the default rather than inventing one — `None` is "it did not say",
/// which is the same distinction the vitals carry.
#[test]
fn a_silent_peer_offers_no_port_rather_than_a_guess() {
    let mut f = World::new();
    let mine = NodeId::from_bytes([4; 32]);
    f.record_pairing(
        mine,
        "ab".repeat(32).as_str(),
        "switched-off",
        0,
        Some("10.10.10.11".to_owned()),
        false,
    );

    let dials = f.fleet.dialable_peers(f.pins.as_ref().expect("reads"));
    let (_, dial) = dials
        .iter()
        .find(|(id, _)| *id == mine)
        .expect("still listed");
    assert_eq!(dial.addr, "10.10.10.11", "the pin's address stands");
    assert_eq!(dial.port, None, "no sighting means no advertised port");
}
