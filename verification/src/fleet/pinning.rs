//! Writing to the pins what this machine has decided to remember.
use crate::identity::{Pin, PinStore};
use crate::node::NodeId;
use crate::text;
use vstd::prelude::*;

verus! {

/// Record a completed pairing.
///
/// Pairing authenticates; it does not authorise. `controller` is true only
/// where a person said so while accepting the machine, and the grant to run
/// benchmarks is never given here.
pub fn record_pairing(
    pins: &mut PinStore,
    node: NodeId,
    public_key_hex: &str,
    name: &str,
    now_unix: u64,
    last_address: Option<String>,
    controller: bool,
)
    ensures
        forall|k: NodeId| k != node ==> #[trigger] final(pins).at(k) == old(pins).at(k),
        final(pins).at(node) matches Some(p) && p.id == node && p.public_key@ == public_key_hex@
            && p.name@ == name@ && p.paired_at == now_unix && p.last_address == last_address
            && p.controller == controller && !p.bench,
{
    pins.add(
        Pin {
            id: node,
            public_key: text::copy(public_key_hex),
            name: text::copy(name),
            paired_at: now_unix,
            last_address,
            controller,
            bench: false,
        },
    );
}

/// What remembering an address makes of a pin.
pub open spec fn moved(old_pin: Pin, new_pin: Pin, addr: Seq<char>) -> bool {
    &&& new_pin == (Pin { last_address: new_pin.last_address, ..old_pin })
    &&& new_pin.last_address matches Some(a) && a@ == addr
}

/// Remember where a paired machine was reached. A machine that is not paired
/// is not remembered. Says whether anything changed, and so whether the pins
/// must be written.
pub fn remember_address(pins: &mut PinStore, node: NodeId, addr: &str) -> (changed: bool)
    ensures
        forall|k: NodeId| k != node ==> #[trigger] final(pins).at(k) == old(pins).at(k),
        match old(pins).at(node) {
            Some(p) => final(pins).at(node) matches Some(q) && moved(p, q, addr@) && changed == !(
            p.last_address is Some && p.last_address.unwrap()@ == addr@),
            None => final(pins).at(node) is None && !changed,
        },
{
    let found = match pins.pins.get(node) {
        Some(p) => Some(p.copy()),
        None => None,
    };
    match found {
        Some(p) => {
            let known = match &p.last_address {
                Some(a) => text::same(a, addr),
                None => false,
            };
            if known {
                return false;
            }
            let mut pin = p;
            pin.last_address = Some(text::copy(addr));
            pins.pins.insert(node, pin);
            true
        },
        None => false,
    }
}

} // verus!
