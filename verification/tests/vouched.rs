#![allow(dead_code, unused_imports)]
use metralectl_agent::discovery::Beacon;
use metralectl_agent::error::AgentError;
use metralectl_agent::fabric::{LinkClass, NodeAddress};
use metralectl_agent::fleet::pairing::{
    pair_at, trust, DialAnswer, PairOutcome, PairStep, PairWalk, Paired,
};
use metralectl_agent::fleet::routing::{ControlRoute, Socket};
use metralectl_agent::fleet::vitals::{no_vitals, vitals_from_device, DeviceReadings};
use metralectl_agent::fleet::vouched::MAX_VOUCHED;
use metralectl_agent::fleet::{
    record_pairing, remember_address, Launchability, LocalFleet, Metric, NodeDescriptor, NodeVitals,
    PairingState, PeerReport, VouchedPeer, UNREACHABLE_AFTER,
};
use metralectl_agent::identity::{PinStore, PinsRead};
use metralectl_agent::node::NodeId;

/// A fleet view with the pins, the clock and the readings it is asked with.
struct World {
    fleet: LocalFleet<f32>,
    pins: PinsRead,
    now: u64,
    vitals: Option<NodeVitals<f32>>,
}

impl World {
    fn new() -> Self {
        World {
            fleet: LocalFleet::new(
                NodeId::from_bytes([0xe1; 32]),
                "spark-256a".to_owned(),
                vec![roce("10.10.10.9")],
                Launchability::yes(),
                "GB10".to_owned(),
                "Linux".to_owned(),
                "0.1.3".to_owned(),
            ),
            pins: Ok(PinStore::new()),
            now: 1_000_000,
            vitals: None,
        }
    }

    fn id(&self) -> NodeId {
        self.fleet.id
    }

    fn store(&mut self) -> &mut PinStore {
        self.pins.as_mut().expect("the pins read")
    }

    fn is_pinned(&self, id: NodeId) -> bool {
        self.pins.as_ref().expect("the pins read").is_pinned(id)
    }

    fn observe(&mut self, b: Beacon) {
        self.fleet.observe(b, &self.pins, self.now);
    }

    fn record_report(&mut self, r: PeerReport<f32>) {
        self.fleet.record_report(r, self.now);
    }

    fn clear_report(&mut self, id: NodeId) {
        self.fleet.clear_report(id);
    }

    fn record_vouches(&mut self, via: NodeId, digest: Vec<VouchedPeer<f32>>) {
        self.fleet.record_vouches(via, digest, self.now);
    }

    fn choose_voucher(&self, id: NodeId) -> Option<NodeId> {
        self.fleet.choose_voucher(id)
    }

    fn prune(&mut self) {
        self.fleet.prune(&self.pins, self.now);
    }

    fn unpair(&mut self, id: NodeId) -> bool {
        let pins = self.pins.as_mut().expect("the pins read");
        self.fleet.unpair(pins, id)
    }

    fn record_pairing(
        &mut self,
        id: NodeId,
        key: &str,
        name: &str,
        at: u64,
        addr: Option<String>,
        controller: bool,
    ) {
        record_pairing(self.store(), id, key, name, at, addr, controller);
    }

    fn nodes(&self) -> Vec<NodeDescriptor<f32>> {
        self.fleet.nodes(&self.pins, self.vitals, &None, self.now)
    }

    fn control_address(&self, id: NodeId) -> Option<String> {
        self.fleet.control_address(&self.pins, id)
    }

    /// Every address in these tests can be dialled.
    fn plan_control_route(&self, id: NodeId, port: u16) -> Result<ControlRoute, AgentError> {
        self.fleet.plan_control_route(&self.pins, id, port, true)
    }
}

fn roce(addr: &str) -> NodeAddress {
    NodeAddress {
        iface: "enp1s0f0np0".to_owned(),
        addr: addr.to_owned(),
        class: LinkClass::Roce,
        speed_mbps: Some(200_000),
        prefix_len: 30,
        rdma: true,
    }
}

fn beacon(id: NodeId, name: &str, can_launch: bool) -> Beacon {
    Beacon {
        id,
        name: name.to_owned(),
        peer_port: 34334,
        addresses: vec!["10.10.10.10".to_owned()],
        can_launch,
        accelerator: "GB10".to_owned(),
    }
}

/// A machine with its own key.
struct Identity {
    byte: u8,
}

impl Identity {
    fn id(&self) -> NodeId {
        NodeId::from_bytes([self.byte; 32])
    }

    fn key(&self) -> String {
        format!("{:02x}", self.byte).repeat(32)
    }
}

fn nid(n: u8) -> NodeId {
    NodeId::from_bytes([n; 32])
}

fn claim(node: NodeId, name: &str) -> VouchedPeer<f32> {
    VouchedPeer {
        node,
        name: name.to_owned(),
        can_launch: true,
        accelerator: "GB10".to_owned(),
        os: "Linux".to_owned(),
        addresses: Vec::new(),
        link: LinkClass::Roce,
        reachable: true,
        vitals: None,
        vitals_age_s: None,
    }
}

fn vitals() -> NodeVitals<f32> {
    NodeVitals {
        accelerator_util: Metric::Reading(11.0),
        sm_clock_mhz: Metric::Unsupported,
        sm_clock_healthy_mhz: None,
        temperature_c: Metric::Unsupported,
        power_w: Metric::Unsupported,
        memory_used_frac: Metric::Unsupported,
        memory_total_bytes: Metric::Unsupported,
        disk_free_bytes: Metric::Unsupported,
        docker_ok: true,
        agent_uptime_s: 5,
    }
}

/// A report for a voucher, over the given link class, so `choose_voucher` has
/// a leg-from-us to rank.
fn report_over(
    id: NodeId,
    link: LinkClass,
) -> PeerReport<f32> {
    PeerReport {
        node: id,
        name: "voucher".to_owned(),
        can_launch: true,
        accelerator: "GB10".to_owned(),
        os: "Linux".to_owned(),
        vitals: None,
        link,
        addresses: Vec::new(),
        peer_version_max: 2,
    }
}

fn row(fleet: &World, id: NodeId) -> Option<NodeDescriptor<f32>> {
    fleet.nodes().into_iter().find(|n| n.id == id)
}

#[test]
fn a_vouched_only_node_lists_second_hand_with_its_provenance() {
    let mut f = World::new();
    let voucher = nid(3);
    f.record_report(report_over(voucher, LinkClass::Roce));
    f.record_vouches(voucher, vec![claim(nid(7), "spark-43fa")]);

    let node = row(&f, nid(7)).expect("a vouched node is listed");
    assert_eq!(
        node.pairing,
        PairingState::Vouched,
        "a claim must never wear the same state as verified evidence"
    );
    assert_eq!(node.vouched_by, Some(voucher));
    assert_eq!(
        node.reached_via,
        Some(voucher),
        "control toward a vouched node rides its voucher"
    );
    assert_eq!(node.name, "spark-43fa");
}

#[test]
fn first_hand_evidence_beats_a_vouch_and_the_rows_merge_to_one() {
    // The precedence ladder, top rung against bottom: a vouched-only node
    // that is later paired directly must collapse to ONE row whose every
    // attribute is first-hand, with the vouch surviving only as the
    // `vouched_by` label. Two rows would let the stale claim shadow the
    // fresh evidence; blended fields would let a voucher edit a peer we can
    // ask ourselves.
    let mut f = World::new();
    let voucher = nid(3);
    let target = nid(7);
    f.record_report(report_over(voucher, LinkClass::Roce));
    // The voucher lies about the target's capability, to prove whose word
    // the merged row carries.
    let mut lied = claim(target, "wrong-name");
    lied.can_launch = false;
    f.record_vouches(voucher, vec![lied]);
    assert_eq!(
        row(&f, target).expect("vouched row").pairing,
        PairingState::Vouched
    );

    // Now pair with it directly and hear from it ourselves.
    f.record_pairing(
        target,
        "aa",
        "spark-43fa",
        0,
        Some("10.10.10.10".to_owned()),
        false,
    );
    let mut first_hand = report_over(target, LinkClass::Roce);
    first_hand.name = "spark-43fa".to_owned();
    f.record_report(first_hand);

    let rows: Vec<_> = f.nodes().into_iter().filter(|n| n.id == target).collect();
    assert_eq!(rows.len(), 1, "one node, one row");
    let node = &rows[0];
    assert_eq!(node.pairing, PairingState::Paired);
    assert_eq!(node.name, "spark-43fa", "first-hand name wins");
    assert!(
        node.launchability.can_launch,
        "the voucher's claim must not overwrite what the node itself said"
    );
    assert_eq!(
        node.reached_via, None,
        "a pinned node is dialled directly; the relay provenance drops"
    );
    assert_eq!(
        node.vouched_by,
        Some(voucher),
        "the vouch remains visible as labeled corroboration"
    );
}

#[test]
fn a_new_digest_replaces_the_speakers_claims_wholesale() {
    // One call, not an expiry: "dgx1 unpaired dgx2" must take effect the
    // moment dgx1's next digest arrives, or a retracted node lingers as a
    // ghost the UI still offers routes to.
    let mut f = World::new();
    let voucher = nid(3);
    f.record_report(report_over(voucher, LinkClass::Roce));
    f.record_vouches(
        voucher,
        vec![claim(nid(7), "seven"), claim(nid(8), "eight")],
    );
    assert!(row(&f, nid(7)).is_some());

    f.record_vouches(voucher, vec![claim(nid(8), "eight")]);
    assert!(
        row(&f, nid(7)).is_none(),
        "a retracted node must disappear in the same call"
    );
    assert!(row(&f, nid(8)).is_some());

    // And an affirmatively empty digest clears everything it ever said.
    f.record_vouches(voucher, Vec::new());
    assert!(row(&f, nid(8)).is_none());
}

#[test]
fn entries_naming_the_receiver_or_the_speaker_are_dropped() {
    // A digest cannot list this machine as a stranger in its own fleet, and
    // a speaker cannot be its own voucher — either would let one peer
    // manufacture provenance about identities the receiver already knows
    // first-hand by definition.
    let mut f = World::new();
    let voucher = nid(3);
    f.record_report(report_over(voucher, LinkClass::Roce));
    let me = f.id();
    f.record_vouches(
        voucher,
        vec![
            claim(me, "me-but-claimed"),
            claim(voucher, "self-vouch"),
        ],
    );

    assert_eq!(f.choose_voucher(f.id()), None);
    assert_eq!(f.choose_voucher(voucher), None);
    let local = row(&f, f.id()).expect("local row");
    assert_eq!(local.vouched_by, None, "nobody vouches for this machine");
    assert!(
        row(&f, voucher).is_none(),
        "the speaker gained no listing from vouching for itself"
    );
}

#[test]
fn an_oversized_digest_is_refused_wholesale_not_truncated() {
    // Truncation would silently hide fleet members and let the speaker
    // choose which 64 survive; refusal keeps the last well-formed statement
    // this agent accepted.
    let mut f = World::new();
    let voucher = nid(3);
    f.record_report(report_over(voucher, LinkClass::Roce));
    f.record_vouches(voucher, vec![claim(nid(7), "seven")]);

    let flood: Vec<VouchedPeer<f32>> = (0..=MAX_VOUCHED)
        .map(|i| {
            let mut b = [0xB0u8; 32];
            b[31] = u8::try_from(i).expect("fits");
            b[30] = u8::try_from(i / 256).expect("fits");
            claim(NodeId::from_bytes(b), "flood")
        })
        .collect();
    assert!(flood.len() > MAX_VOUCHED);
    let named: Vec<NodeId> = flood.iter().map(|e| e.node).collect();
    f.record_vouches(voucher, flood);

    for node in named {
        assert!(
            row(&f, node).is_none(),
            "no entry of a refused digest may be recorded"
        );
    }
    assert!(
        row(&f, nid(7)).is_some(),
        "the previous well-formed digest remains the accepted statement"
    );
}

#[test]
fn the_voucher_choice_is_deterministic_and_prefers_the_better_leg() {
    let mut f = World::new();
    let target = nid(9);
    let (a, b) = (nid(2), nid(5));
    f.record_report(report_over(a, LinkClass::Ethernet));
    f.record_report(report_over(b, LinkClass::Roce));
    f.record_vouches(a, vec![claim(target, "t")]);
    f.record_vouches(b, vec![claim(target, "t")]);

    // Unequal legs: the faster leg FROM US wins, whatever the id order says.
    assert_eq!(f.choose_voucher(target), Some(b));

    // Equal legs: the numerically smallest voucher id, and the same answer
    // twice — an unstable choice would make the UI reorder itself and a
    // failure unreproducible.
    f.record_report(report_over(a, LinkClass::Roce));
    assert_eq!(f.choose_voucher(target), Some(a));
    assert_eq!(f.choose_voucher(target), Some(a));

    // The listing's `reached_via` is the router's own choice, not a second
    // opinion: one function decides both (SSOT).
    let node = row(&f, target).expect("listed");
    assert_eq!(node.reached_via, f.choose_voucher(target));

    // A voucher we cannot currently hear is ineligible however good its leg
    // was: a route through a silent relay is not a route.
    f.clear_report(a);
    assert_eq!(f.choose_voucher(target), Some(b));
}

#[test]
fn a_silent_voucher_stops_steering_but_its_machines_stay_listed() {
    let mut f = World::new();
    let voucher = nid(3);
    f.record_report(report_over(voucher, LinkClass::Roce));
    f.record_vouches(voucher, vec![claim(nid(7), "seven")]);
    assert!(row(&f, nid(7)).is_some());

    // The voucher stops answering. It stops being a ROUTE immediately — a
    // route through a silent relay is not a route.
    f.clear_report(voucher);
    assert_eq!(f.choose_voucher(nid(7)), None);

    // But the machine behind it does not vanish. A fleet member that cannot be
    // reached right now is still a fleet member, and a row disappearing reads
    // as "you never paired that" — false, and nothing the operator can act on.
    let still = row(&f, nid(7)).expect("a machine behind a silent voucher stays listed");
    assert_eq!(still.pairing, PairingState::Vouched);
    assert_eq!(
        still.reached_via, None,
        "no route while the voucher is silent, and the row must say so"
    );
    assert_eq!(
        still.vouched_by,
        Some(voucher),
        "the page has to be able to name which machine it is waiting on"
    );
}

#[test]
fn unpairing_a_voucher_withdraws_every_claim_it_made() {
    let mut f = World::new();
    let voucher = nid(3);
    f.record_report(report_over(voucher, LinkClass::Roce));
    f.record_vouches(voucher, vec![claim(nid(7), "seven")]);
    assert!(row(&f, nid(7)).is_some());

    // Withdrawing trust is not the same as losing contact. A peer that is no
    // longer trusted is not trusted to have said anything, so its claims go
    // with its pin rather than lingering as rows nobody vouches for.
    let _ = f.unpair(voucher);
    assert!(
        row(&f, nid(7)).is_none(),
        "trust withdrawn from a voucher withdraws every claim it made"
    );
    assert_eq!(f.choose_voucher(nid(7)), None);
}

#[test]
fn second_hand_vitals_appear_only_with_a_fresh_stated_age() {
    let mut f = World::new();
    let voucher = nid(3);
    f.record_report(report_over(voucher, LinkClass::Roce));

    // Fresh, with an age: shown.
    let mut fresh = claim(nid(7), "fresh");
    fresh.vitals = Some(vitals());
    fresh.vitals_age_s = Some(10);
    // Ancient: the voucher last heard these before its own staleness bound.
    let mut stale = claim(nid(8), "stale");
    stale.vitals = Some(vitals());
    stale.vitals_age_s = Some(UNREACHABLE_AFTER / 1000 + 1);
    // Ageless: an unknown age is not zero; showing these would render old
    // data as current.
    let mut ageless = claim(nid(9), "ageless");
    ageless.vitals = Some(vitals());
    ageless.vitals_age_s = None;
    f.record_vouches(voucher, vec![fresh, stale, ageless]);

    assert!(row(&f, nid(7)).expect("listed").vitals.is_some());
    assert!(row(&f, nid(8)).expect("listed").vitals.is_none());
    assert!(row(&f, nid(9)).expect("listed").vitals.is_none());
}
