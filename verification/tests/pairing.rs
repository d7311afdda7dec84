#![allow(dead_code, unused_imports)]
use metralectl_agent::discovery::Beacon;
use metralectl_agent::error::AgentError;
use metralectl_agent::fabric::{LinkClass, NodeAddress};
use metralectl_agent::fleet::pairing::{
    pair_at, trust, DialAnswer, PairOutcome, PairStep, PairWalk, Paired,
};
use metralectl_agent::fleet::routing::{ControlRoute, Socket};
use metralectl_agent::fleet::vitals::{no_vitals, vitals_from_device, DeviceReadings};
use metralectl_agent::fleet::vouched::MAX_VOUCHED;
use metralectl_agent::fleet::{
    record_pairing, remember_address, Launchability, LocalFleet, Metric, NodeDescriptor, NodeVitals,
    PairingState, PeerReport, VouchedPeer, UNREACHABLE_AFTER,
};
use metralectl_agent::identity::{PinStore, PinsRead};
use metralectl_agent::node::NodeId;

/// A fleet view with the pins, the clock and the readings it is asked with.
struct World {
    fleet: LocalFleet<f32>,
    pins: PinsRead,
    now: u64,
    vitals: Option<NodeVitals<f32>>,
}

impl World {
    fn new() -> Self {
        World {
            fleet: LocalFleet::new(
                NodeId::from_bytes([0xe1; 32]),
                "spark-256a".to_owned(),
                vec![roce("10.10.10.9")],
                Launchability::yes(),
                "GB10".to_owned(),
                "Linux".to_owned(),
                "0.1.3".to_owned(),
            ),
            pins: Ok(PinStore::new()),
            now: 1_000_000,
            vitals: None,
        }
    }

    fn id(&self) -> NodeId {
        self.fleet.id
    }

    fn store(&mut self) -> &mut PinStore {
        self.pins.as_mut().expect("the pins read")
    }

    fn is_pinned(&self, id: NodeId) -> bool {
        self.pins.as_ref().expect("the pins read").is_pinned(id)
    }

    fn observe(&mut self, b: Beacon) {
        self.fleet.observe(b, &self.pins, self.now);
    }

    fn record_report(&mut self, r: PeerReport<f32>) {
        self.fleet.record_report(r, self.now);
    }

    fn clear_report(&mut self, id: NodeId) {
        self.fleet.clear_report(id);
    }

    fn record_vouches(&mut self, via: NodeId, digest: Vec<VouchedPeer<f32>>) {
        self.fleet.record_vouches(via, digest, self.now);
    }

    fn choose_voucher(&self, id: NodeId) -> Option<NodeId> {
        self.fleet.choose_voucher(id)
    }

    fn prune(&mut self) {
        self.fleet.prune(&self.pins, self.now);
    }

    fn unpair(&mut self, id: NodeId) -> bool {
        let pins = self.pins.as_mut().expect("the pins read");
        self.fleet.unpair(pins, id)
    }

    fn record_pairing(
        &mut self,
        id: NodeId,
        key: &str,
        name: &str,
        at: u64,
        addr: Option<String>,
        controller: bool,
    ) {
        record_pairing(self.store(), id, key, name, at, addr, controller);
    }

    fn nodes(&self) -> Vec<NodeDescriptor<f32>> {
        self.fleet.nodes(&self.pins, self.vitals, &None, self.now)
    }

    fn control_address(&self, id: NodeId) -> Option<String> {
        self.fleet.control_address(&self.pins, id)
    }

    /// Every address in these tests can be dialled.
    fn plan_control_route(&self, id: NodeId, port: u16) -> Result<ControlRoute, AgentError> {
        self.fleet.plan_control_route(&self.pins, id, port, true)
    }
}

fn roce(addr: &str) -> NodeAddress {
    NodeAddress {
        iface: "enp1s0f0np0".to_owned(),
        addr: addr.to_owned(),
        class: LinkClass::Roce,
        speed_mbps: Some(200_000),
        prefix_len: 30,
        rdma: true,
    }
}

fn beacon(id: NodeId, name: &str, can_launch: bool) -> Beacon {
    Beacon {
        id,
        name: name.to_owned(),
        peer_port: 34334,
        addresses: vec!["10.10.10.10".to_owned()],
        can_launch,
        accelerator: "GB10".to_owned(),
    }
}

/// A machine with its own key.
struct Identity {
    byte: u8,
}

impl Identity {
    fn id(&self) -> NodeId {
        NodeId::from_bytes([self.byte; 32])
    }

    fn key(&self) -> String {
        format!("{:02x}", self.byte).repeat(32)
    }
}

/// A recording pairing driver: what every address answers with, and what was
/// dialled.
struct FakePairing {
    answer: DialAnswer,
    calls: Vec<(Socket, String)>,
}

impl FakePairing {
    fn returning(node: NodeId, name: &str) -> Self {
        FakePairing {
            answer: DialAnswer::Paired(Paired {
                node,
                public_key: "07".repeat(32),
                name: name.to_owned(),
                verification: "abcd-ef01".to_owned(),
            }),
            calls: Vec::new(),
        }
    }

    /// A machine that never answered.
    fn unreachable() -> Self {
        FakePairing {
            answer: DialAnswer::Unreachable("dialling the peer: connection refused".to_owned()),
            calls: Vec::new(),
        }
    }

    fn refusing(why: &str) -> Self {
        FakePairing {
            answer: DialAnswer::Refused(why.to_owned()),
            calls: Vec::new(),
        }
    }

    /// Walk the addresses until the pairing is over.
    fn run(&mut self, begun: Result<PairWalk, String>, code: &str) -> Result<PairOutcome, String> {
        let mut walk = begun?;
        loop {
            self.calls.push((walk.addrs[walk.at].copy(), code.to_owned()));
            match walk.hear(self.answer.clone()) {
                PairStep::Dial { addr } => assert_eq!(addr, walk.addrs[walk.at]),
                PairStep::Failed { why } => return Err(why),
                PairStep::Exchanged { outcome } => return Ok(outcome),
            }
        }
    }
}

/// An agent with no way to run the ceremony must fail loudly. A pin written
/// without a key exchange would mean nothing while looking exactly like one
/// that means everything.
#[test]
fn pairing_refuses_rather_than_writing_a_pin_it_cannot_justify() {
    let mut f = World::new();
    let node = NodeId::from_bytes([6; 32]);
    f.observe(beacon(node, "spark-43fa", true));

    let err = f
        .fleet
        .pair(node, "13572468", false)
        .expect_err("must not fake a pairing");
    assert!(
        err.contains("cannot run a pairing ceremony"),
        "{err}"
    );
    assert!(
        !f.is_pinned(node),
        "a failed pairing must leave no trust behind"
    );
}

/// The whole point: a browser can now pair a discovered machine. This is what
/// `fleet/listing.rs` used to refuse outright, which is why the pair dialog
/// existed but could never succeed.
#[test]
fn a_completed_ceremony_records_the_pin_and_returns_the_words() {
    let node = NodeId::from_bytes([6; 32]);
    let mut driver = FakePairing::returning(node, "spark-43fa");
    let mut f = World::new();
    f.observe(beacon(node, "spark-43fa", true));

    let out = driver.run(f.fleet.pair(node, "13572468", true), "13572468").expect("pairs");
    assert_eq!(out.node, node);
    assert_eq!(out.verification, "abcd-ef01");
    // The exchange completed and NOTHING is trusted yet. This is the whole
    // point of two-phase pairing: the words exist to be compared, and a
    // comparison that happens after the pin is written is a formality.
    assert!(
        !f.is_pinned(node),
        "pair() must not write a pin; trust() does"
    );

    // And accepting it writes one.
    trust(f.store(), &out, false, 0);
    assert!(f.is_pinned(node));

    // Dialled the address the beacon advertised, on the peer port, with the
    // operator's code — not the browser port, and not a code of its own.
    let calls = &driver.calls;
    assert_eq!(calls.len(), 1);
    assert_eq!(calls[0].0.port, 34334);
    assert_eq!(calls[0].1, "13572468");
}

/// The ceremony authenticates *a* peer; this checks it is the peer the
/// operator selected. Without it, whatever answers on that address gets pinned
/// under the identity of the machine that was chosen — which is the one thing
/// an address from an unauthenticated beacon must not be able to buy.
#[test]
fn a_machine_that_is_not_the_one_selected_is_refused() {
    let selected = NodeId::from_bytes([6; 32]);
    let impostor = NodeId::from_bytes([9; 32]);
    let mut driver = FakePairing::returning(impostor, "not-who-you-picked");
    let mut f = World::new();
    f.observe(beacon(selected, "spark-43fa", true));

    let err = driver.run(f.fleet.pair(selected, "13572468", true), "13572468").expect_err("must refuse");
    assert!(err.contains("was selected"), "{err}");
    assert!(!f.is_pinned(selected));
    assert!(
        !f.is_pinned(impostor),
        "and certainly must not pin whoever actually answered"
    );
}

/// A wrong code and a relayed connection both surface here as a failed
/// ceremony, and neither may leave trust behind.
#[test]
fn a_failed_ceremony_writes_no_pin() {
    let node = NodeId::from_bytes([6; 32]);
    let mut driver = FakePairing::refusing("key confirmation failed");
    let mut f = World::new();
    f.observe(beacon(node, "spark-43fa", true));

    let err = driver.run(f.fleet.pair(node, "13572468", true), "13572468").expect_err("must refuse");
    assert!(err.contains("key confirmation"), "{err}");
    assert!(!f.is_pinned(node));
}

/// Refusing the words must leave nothing behind.
///
/// Before this was two-phase the pin already existed by now, so a refusal had
/// to be a REMOVAL — and a removal that failed left a machine trusted that the
/// operator had explicitly rejected. There is nothing to remove now.
#[test]
fn an_exchange_that_is_never_trusted_writes_nothing() {
    let node = NodeId::from_bytes([9u8; 32]);
    let mut driver = FakePairing::returning(node, "spark-28c2");
    let mut f = World::new();
    f.observe(beacon(node, "spark-28c2", true));

    let out = driver.run(f.fleet.pair(node, "13572468", true), "13572468").expect("pairs");
    drop(out); // the operator said the words did not match

    assert!(
        !f.is_pinned(node),
        "a refused exchange must never have touched the pin store"
    );
}

/// A beacon from a machine that offers several links, like a DGX with two
/// RoCE addresses and one on the ordinary LAN.
fn beacon_at(id: NodeId, name: &str, addrs: &[&str]) -> Beacon {
    let mut b = beacon(id, name, true);
    b.addresses = addrs.iter().map(|a| (*a).to_owned()).collect();
    b
}

/// The code allows three attempts and a DGX advertises three addresses, so a
/// walk that treats a REFUSAL as a reason to try the next one turns a single
/// mistyped code into a lockout — before the operator has had one real go.
#[test]
fn a_machine_that_answered_and_refused_costs_exactly_one_attempt() {
    let node = NodeId::from_bytes([6; 32]);
    let mut driver = FakePairing::refusing("key confirmation failed");
    let mut f = World::new();
    f.observe(beacon_at(
        node,
        "dgx1",
        &["10.10.10.9", "10.10.10.13", "192.168.68.68"],
    ));

    driver.run(f.fleet.pair(node, "13572468", true), "13572468").expect_err("must refuse");
    assert_eq!(
        driver.calls.len(),
        1,
        "every address here is the SAME machine; a refusal already spent an \
         attempt, so the walk must stop rather than spend the rest"
    );
}

/// The other half: when nothing answers, the next address is free, and it is
/// the whole reason more than one is offered — a laptop can reach only the
/// last of a DGX's three.
#[test]
fn an_address_that_never_answers_moves_on_to_the_next() {
    let node = NodeId::from_bytes([6; 32]);
    let mut driver = FakePairing::unreachable();
    let mut f = World::new();
    f.observe(beacon_at(
        node,
        "dgx1",
        &["10.10.10.9", "10.10.10.13", "192.168.68.68"],
    ));

    driver
        .run(f.fleet.pair(node, "13572468", true), "13572468")
        .expect_err("nothing answered anywhere");
    let calls = &driver.calls;
    assert_eq!(calls.len(), 3, "all three links must be tried");
    assert_eq!(
        calls[2].0.ip,
        "192.168.68.68",
        "the LAN address is last, and is the only one a laptop could use"
    );
}

/// A walk that reached nothing names every address, with what came of it.
#[test]
fn a_walk_that_reached_nothing_names_every_address() {
    let node = NodeId::from_bytes([6; 32]);
    let mut driver = FakePairing::unreachable();
    let mut f = World::new();
    f.observe(beacon_at(node, "dgx1", &["10.10.10.9", "fe80::1"]));
    let err = driver
        .run(f.fleet.pair(node, "13572468", true), "13572468")
        .expect_err("nothing answered");
    assert_eq!(
        err,
        "could not pair over any advertised address — 10.10.10.9:34334: dialling the peer: \
         connection refused; [fe80::1]:34334: dialling the peer: connection refused"
    );
}

/// A typed address has no machine behind it to check against: whoever answers
/// is offered.
#[test]
fn a_typed_address_offers_whoever_answers() {
    let node = NodeId::from_bytes([9; 32]);
    let mut driver = FakePairing::returning(node, "spark-28c2");
    let at = Socket { ip: "192.168.1.9".to_owned(), port: 34334 };
    let out = driver
        .run(pair_at("spark", "13572468", true, Ok(vec![at])), "13572468")
        .expect("pairs");
    assert_eq!(out.node, node);
    assert_eq!(out.address, "192.168.1.9");
    let none = pair_at("spark", "13572468", true, Ok(Vec::new())).expect_err("no address");
    assert_eq!(none, "spark resolved to no address");
    let bad = pair_at("spark", "1357", true, Ok(Vec::new())).expect_err("no code");
    assert_eq!(bad, "a pairing code is 8 digits");
}

/// The name of a machine is its own claim, and is pinned as it is shown.
#[test]
fn a_name_is_pinned_as_it_is_shown() {
    let node = NodeId::from_bytes([8; 32]);
    let out = PairOutcome {
        node,
        public_key: "ab".repeat(32),
        name: format!("sp\u{7}ark\n{}", "x".repeat(80)),
        address: "10.10.10.10".to_owned(),
        verification: "abcd-ef01".to_owned(),
    };
    let mut pins = PinStore::new();
    trust(&mut pins, &out, true, 5);
    let pin = pins.pins.get(node).expect("pinned");
    assert_eq!(pin.name, format!("spark{}", "x".repeat(58)));
    assert!(pin.controller);
}
