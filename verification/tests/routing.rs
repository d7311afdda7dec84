#![allow(dead_code, unused_imports)]
use metralectl_agent::discovery::Beacon;
use metralectl_agent::error::AgentError;
use metralectl_agent::fabric::{LinkClass, NodeAddress};
use metralectl_agent::fleet::pairing::{
    pair_at, trust, DialAnswer, PairOutcome, PairStep, PairWalk, Paired,
};
use metralectl_agent::fleet::routing::{ControlRoute, Socket};
use metralectl_agent::fleet::vitals::{no_vitals, vitals_from_device, DeviceReadings};
use metralectl_agent::fleet::vouched::MAX_VOUCHED;
use metralectl_agent::fleet::{
    record_pairing, remember_address, Launchability, LocalFleet, Metric, NodeDescriptor, NodeVitals,
    PairingState, PeerReport, VouchedPeer, UNREACHABLE_AFTER,
};
use metralectl_agent::identity::{PinStore, PinsRead};
use metralectl_agent::node::NodeId;

/// A fleet view with the pins, the clock and the readings it is asked with.
struct World {
    fleet: LocalFleet<f32>,
    pins: PinsRead,
    now: u64,
    vitals: Option<NodeVitals<f32>>,
}

impl World {
    fn new() -> Self {
        World {
            fleet: LocalFleet::new(
                NodeId::from_bytes([0xe1; 32]),
                "spark-256a".to_owned(),
                vec![roce("10.10.10.9")],
                Launchability::yes(),
                "GB10".to_owned(),
                "Linux".to_owned(),
                "0.1.3".to_owned(),
            ),
            pins: Ok(PinStore::new()),
            now: 1_000_000,
            vitals: None,
        }
    }

    fn id(&self) -> NodeId {
        self.fleet.id
    }

    fn store(&mut self) -> &mut PinStore {
        self.pins.as_mut().expect("the pins read")
    }

    fn is_pinned(&self, id: NodeId) -> bool {
        self.pins.as_ref().expect("the pins read").is_pinned(id)
    }

    fn observe(&mut self, b: Beacon) {
        self.fleet.observe(b, &self.pins, self.now);
    }

    fn record_report(&mut self, r: PeerReport<f32>) {
        self.fleet.record_report(r, self.now);
    }

    fn clear_report(&mut self, id: NodeId) {
        self.fleet.clear_report(id);
    }

    fn record_vouches(&mut self, via: NodeId, digest: Vec<VouchedPeer<f32>>) {
        self.fleet.record_vouches(via, digest, self.now);
    }

    fn choose_voucher(&self, id: NodeId) -> Option<NodeId> {
        self.fleet.choose_voucher(id)
    }

    fn prune(&mut self) {
        self.fleet.prune(&self.pins, self.now);
    }

    fn unpair(&mut self, id: NodeId) -> bool {
        let pins = self.pins.as_mut().expect("the pins read");
        self.fleet.unpair(pins, id)
    }

    fn record_pairing(
        &mut self,
        id: NodeId,
        key: &str,
        name: &str,
        at: u64,
        addr: Option<String>,
        controller: bool,
    ) {
        record_pairing(self.store(), id, key, name, at, addr, controller);
    }

    fn nodes(&self) -> Vec<NodeDescriptor<f32>> {
        self.fleet.nodes(&self.pins, self.vitals, &None, self.now)
    }

    fn control_address(&self, id: NodeId) -> Option<String> {
        self.fleet.control_address(&self.pins, id)
    }

    /// Every address in these tests can be dialled.
    fn plan_control_route(&self, id: NodeId, port: u16) -> Result<ControlRoute, AgentError> {
        self.fleet.plan_control_route(&self.pins, id, port, true)
    }
}

fn roce(addr: &str) -> NodeAddress {
    NodeAddress {
        iface: "enp1s0f0np0".to_owned(),
        addr: addr.to_owned(),
        class: LinkClass::Roce,
        speed_mbps: Some(200_000),
        prefix_len: 30,
        rdma: true,
    }
}

fn beacon(id: NodeId, name: &str, can_launch: bool) -> Beacon {
    Beacon {
        id,
        name: name.to_owned(),
        peer_port: 34334,
        addresses: vec!["10.10.10.10".to_owned()],
        can_launch,
        accelerator: "GB10".to_owned(),
    }
}

/// A machine with its own key.
struct Identity {
    byte: u8,
}

impl Identity {
    fn id(&self) -> NodeId {
        NodeId::from_bytes([self.byte; 32])
    }

    fn key(&self) -> String {
        format!("{:02x}", self.byte).repeat(32)
    }
}

const PORT: u16 = 34334;

fn nid(n: u8) -> NodeId {
    NodeId::from_bytes([n; 32])
}

fn addr_of(iface_addr: &str, class: LinkClass, speed: Option<u32>) -> NodeAddress {
    NodeAddress {
        iface: String::new(),
        addr: iface_addr.to_owned(),
        class,
        speed_mbps: speed,
        prefix_len: 24,
        rdma: matches!(class, LinkClass::Roce | LinkClass::InfiniBand),
    }
}

fn report(
    id: NodeId,
    addresses: Vec<NodeAddress>,
    peer_version_max: u32,
) -> PeerReport<f32> {
    PeerReport {
        node: id,
        name: "peer".to_owned(),
        can_launch: true,
        accelerator: "GB10".to_owned(),
        os: "Linux".to_owned(),
        vitals: None,
        link: LinkClass::Roce,
        addresses,
        peer_version_max,
    }
}

fn claim(node: NodeId, addresses: Vec<NodeAddress>) -> VouchedPeer<f32> {
    VouchedPeer {
        node,
        name: "vouched".to_owned(),
        can_launch: true,
        accelerator: "GB10".to_owned(),
        os: "Linux".to_owned(),
        addresses,
        link: LinkClass::Roce,
        reachable: true,
        vitals: None,
        vitals_age_s: None,
    }
}

fn pin(f: &mut World, node: NodeId, last_address: Option<&str>) {
    f.record_pairing(
        node,
        "aa",
        "pinned",
        0,
        last_address.map(ToOwned::to_owned),
        false,
    );
}

#[test]
fn a_pinned_peer_is_dialled_directly_on_its_best_reported_link() {
    let mut f = World::new();
    let target = nid(7);
    pin(&mut f, target, Some("192.168.1.7"));
    // The report offers LAN and fabric; the fabric must win — this is the
    // InfiniBand-preference requirement falling out of the shared
    // max_by_key((rank, speed)) selection.
    f.record_report(report(
        target,
        vec![
            addr_of("192.168.1.7", LinkClass::Ethernet, Some(1_000)),
            addr_of("10.10.10.7", LinkClass::Roce, Some(200_000)),
        ],
        2,
    ));

    match f.plan_control_route(target, PORT).expect("routable") {
        ControlRoute::Direct { addr } => {
            assert_eq!(addr.text(), format!("10.10.10.7:{PORT}"));
        }
        other @ ControlRoute::Via { .. } => panic!("a pinned peer must not be relayed: {other:?}"),
    }
}

#[test]
fn a_pinned_peer_never_heard_from_falls_back_to_its_remembered_address() {
    let mut f = World::new();
    let target = nid(7);
    pin(&mut f, target, Some("192.168.1.7"));

    match f.plan_control_route(target, PORT).expect("routable") {
        ControlRoute::Direct { addr } => {
            assert_eq!(addr.text(), format!("192.168.1.7:{PORT}"));
        }
        other @ ControlRoute::Via { .. } => panic!("a pinned peer must not be relayed: {other:?}"),
    }
}

#[test]
fn a_vouched_node_is_reached_only_through_its_voucher_never_its_claimed_address() {
    // The lying-intermediary-address case, at the planning layer: the digest
    // carries a hostile address for the target, and the plan must route to
    // the VOUCHER's own dialable address instead — the claimed address
    // contributes zero bytes.
    let mut f = World::new();
    let voucher = nid(3);
    let target = nid(7);
    pin(&mut f, voucher, None);
    f.record_report(report(
        voucher,
        vec![addr_of("10.10.10.3", LinkClass::Roce, Some(200_000))],
        2,
    ));
    f.record_vouches(
        voucher,
        vec![claim(
            target,
            vec![addr_of("6.6.6.6", LinkClass::Roce, Some(200_000))],
        )],
    );

    match f.plan_control_route(target, PORT).expect("routable") {
        ControlRoute::Via { relay, addr } => {
            assert_eq!(relay, voucher);
            assert_eq!(
                addr.text(),
                format!("10.10.10.3:{PORT}"),
                "the dial must go to the voucher, at OUR address for it"
            );
        }
        other @ ControlRoute::Direct { .. } => {
            panic!("a vouched-only node must never be dialled directly: {other:?}")
        }
    }
    assert!(
        f.control_address(target).is_none(),
        "a digest's claimed address must never become a dialable address"
    );
}

#[test]
fn no_pin_and_no_vouch_is_not_routable_and_says_to_pair() {
    let mut f = World::new();
    match f.plan_control_route(nid(9), PORT) {
        Err(AgentError::NotRoutable { node, reason }) => {
            assert_eq!(node, nid(9));
            assert!(reason.contains("pair"), "actionable fix, got: {reason}");
        }
        other => panic!("expected NotRoutable, got {other:?}"),
    }
}

#[test]
fn a_silent_voucher_makes_its_nodes_not_routable_with_provenance() {
    // The voucher claimed the target, then stopped answering: the row stays
    // listed (fleet), but the ROUTE is gone, and the refusal names the
    // machine to wake rather than the one to pair with.
    let mut f = World::new();
    let voucher = nid(3);
    let target = nid(7);
    pin(&mut f, voucher, None);
    f.record_report(report(voucher, Vec::new(), 2));
    f.record_vouches(voucher, vec![claim(target, Vec::new())]);
    f.clear_report(voucher);

    match f.plan_control_route(target, PORT) {
        Err(AgentError::NotRoutable { reason, .. }) => {
            assert!(
                reason.contains(&voucher.short()),
                "must name the voucher to wake, got: {reason}"
            );
        }
        other => panic!("expected NotRoutable, got {other:?}"),
    }
}

#[test]
fn unpairing_the_voucher_kills_every_route_through_it() {
    let mut f = World::new();
    let voucher = nid(3);
    let target = nid(7);
    pin(&mut f, voucher, None);
    f.record_report(report(
        voucher,
        vec![addr_of("10.10.10.3", LinkClass::Roce, None)],
        2,
    ));
    f.record_vouches(voucher, vec![claim(target, Vec::new())]);
    assert!(f.plan_control_route(target, PORT).is_ok());
    f.unpair(voucher);
    f.clear_report(voucher);
    assert!(
        matches!(
            f.plan_control_route(target, PORT),
            Err(AgentError::NotRoutable { .. })
        ),
        "trust withdrawn from the voucher must withdraw the routes it carried"
    );
}

#[test]
fn a_v1_next_hop_is_refused_locally_naming_the_version() {
    // O5, both shapes of next hop. The refusal happens before any dial: a v2
    // frame at a v1 build is dropped by its decoder, which would read as the
    // network eating the request.
    let mut f = World::new();

    // Direct: the pinned target itself is old.
    let target = nid(7);
    pin(&mut f, target, Some("192.168.1.7"));
    f.record_report(report(target, Vec::new(), 1));
    match f.plan_control_route(target, PORT) {
        Err(AgentError::NotRoutable { reason, .. }) => {
            assert!(reason.contains("protocol 1"), "got: {reason}");
        }
        other => panic!("expected a version refusal, got {other:?}"),
    }

    // Via: the voucher is old.
    let voucher = nid(3);
    let vouched = nid(9);
    pin(&mut f, voucher, None);
    f.record_report(report(
        voucher,
        vec![addr_of("10.10.10.3", LinkClass::Roce, None)],
        1,
    ));
    f.record_vouches(voucher, vec![claim(vouched, Vec::new())]);
    match f.plan_control_route(vouched, PORT) {
        Err(AgentError::NotRoutable { reason, .. }) => {
            assert!(reason.contains("protocol 1"), "got: {reason}");
        }
        other => panic!("expected a version refusal, got {other:?}"),
    }
}

#[test]
fn the_listing_shows_exactly_the_route_the_planner_would_take() {
    // SSOT: `reached_via` in the listing and the planner's relay come from
    // the same choose_voucher call, and this is the assertion that keeps a
    // refactor from splitting them.
    let mut f = World::new();
    let (slow, fast, target) = (nid(2), nid(4), nid(7));
    for v in [slow, fast] {
        pin(&mut f, v, None);
        f.record_vouches(v, vec![claim(target, Vec::new())]);
    }
    f.record_report(report(
        slow,
        vec![addr_of("192.168.1.2", LinkClass::Ethernet, None)],
        2,
    ));
    let mut fast_report = report(fast, vec![addr_of("10.10.10.4", LinkClass::Roce, None)], 2);
    fast_report.link = LinkClass::Roce;
    let mut slow_report = report(
        slow,
        vec![addr_of("192.168.1.2", LinkClass::Ethernet, None)],
        2,
    );
    slow_report.link = LinkClass::Ethernet;
    f.record_report(slow_report);
    f.record_report(fast_report);

    let planned = match f.plan_control_route(target, PORT).expect("routable") {
        ControlRoute::Via { relay, .. } => relay,
        ControlRoute::Direct { .. } => panic!("target is not pinned"),
    };
    let listed = f
        .nodes()
        .into_iter()
        .find(|n| n.id == target)
        .expect("listed")
        .reached_via;
    assert_eq!(
        listed,
        Some(planned),
        "the UI must not show a route the router would not take"
    );
    assert_eq!(planned, fast, "the better leg from us wins");
}

/// Pins that cannot be read route nothing, and say so.
#[test]
fn unreadable_pins_route_nothing() {
    let mut f = World::new();
    pin(&mut f, nid(7), Some("192.168.1.7"));
    f.pins = Err("permission denied".to_owned());
    match f.plan_control_route(nid(7), PORT) {
        Err(AgentError::NotRoutable { reason, .. }) => {
            assert_eq!(reason, "this agent's pin store could not be read: permission denied");
        }
        other => panic!("expected NotRoutable, got {other:?}"),
    }
}

/// An address that does not read as one is not dialled.
#[test]
fn an_address_that_cannot_be_dialled_is_none() {
    let mut f = World::new();
    pin(&mut f, nid(7), Some("not-an-address"));
    assert!(f
        .fleet
        .plan_control_route(&f.pins, nid(7), PORT, false)
        .is_err());
}
