use metralectl_agent::identity::{Pin, PinStore};
use metralectl_agent::node::NodeId;

fn node(byte: u8) -> NodeId {
    NodeId::from_bytes([byte; 32])
}

fn pin_for(id: NodeId) -> Pin {
    Pin {
        id,
        public_key: "ab".repeat(32),
        name: "spark-43fa".to_owned(),
        paired_at: 1_756_000_000,
        last_address: None,
        controller: false,
        bench: false,
    }
}

fn at(store: &PinStore, id: NodeId) -> &Pin {
    store.pins.get(id).expect("pinned")
}

#[test]
fn a_machine_that_has_never_paired_trusts_nobody() {
    let store = PinStore::new();
    assert_eq!(store.pins.len(), 0);
    assert!(!store.is_pinned(node(1)));
}

#[test]
fn a_pin_is_kept_and_a_removal_takes_effect_at_once() {
    let mut store = PinStore::new();
    store.add(pin_for(node(1)));
    assert!(store.is_pinned(node(1)));
    assert!(store.remove(node(1)));
    assert!(!store.is_pinned(node(1)));
    assert!(!store.remove(node(1)), "second remove is a no-op");
}

/// The bench grant is its own bit: granting control does not grant bench,
/// granting bench does not grant control, and both revoke.
#[test]
fn the_bench_grant_is_separate_from_control_and_revocable() {
    let mut store = PinStore::new();
    store.add(pin_for(node(1)));

    assert!(store.set_controller(node(1), true));
    assert!(at(&store, node(1)).controller && !at(&store, node(1)).bench);

    assert!(store.set_bench(node(1), true));
    assert!(at(&store, node(1)).bench);

    assert!(store.set_controller(node(1), false));
    assert!(at(&store, node(1)).bench && !at(&store, node(1)).controller);

    assert!(store.set_bench(node(1), false));
    assert!(!at(&store, node(1)).bench);
    // No pin, no grant.
    assert!(!store.set_bench(node(2), true));
}

#[test]
fn a_grant_is_kept_and_is_revocable() {
    let mut store = PinStore::new();
    store.add(pin_for(node(1)));
    assert!(store.set_controller(node(1), true));
    assert!(at(&store, node(1)).controller);
    assert!(store.set_controller(node(1), false));
    assert!(
        !at(&store, node(1)).controller,
        "a revocation that does not reach the store is not a revocation"
    );
}

#[test]
fn granting_control_to_a_machine_that_is_not_pinned_grants_nothing() {
    // `set_controller` must not invent a pin: a grant is an annotation on an
    // existing trust decision, never a way to create one.
    let mut store = PinStore::new();
    assert!(!store.set_controller(node(3), true));
    assert_eq!(store.pins.len(), 0);
}

#[test]
fn removing_a_pin_removes_its_grant_with_it() {
    // Dropping trust must drop the control grant too, not leave it waiting for
    // a re-pair.
    let mut store = PinStore::new();
    store.add(pin_for(node(1)));
    store.set_controller(node(1), true);
    assert!(store.remove(node(1)));
    assert_eq!(store.pins.len(), 0);
    store.add(pin_for(node(1)));
    assert!(!at(&store, node(1)).controller);
}

/// An identity written out reads back as itself.
#[test]
fn an_identity_round_trips_through_its_digits() {
    let id = node(0xa3);
    assert_eq!(id.to_hex(), "a3".repeat(32));
    assert_eq!(NodeId::parse(&id.to_hex()), Some(id));
    assert_eq!(id.short(), "a3a3a3a3");
    assert_eq!(NodeId::parse("a3"), None);
    assert_eq!(NodeId::parse(&"zz".repeat(32)), None);
    assert!(node(1).before(&node(2)) && !node(2).before(&node(2)));
}
