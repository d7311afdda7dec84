//! The machines this one has decided to trust.
//!
//! A pin is written when a person has accepted a pairing, and it is read
//! again for every decision, so that taking one away has effect at once.
use crate::node::{NodeId, NodeMap};
use vstd::prelude::*;

verus! {

/// A machine that was paired with.
#[derive(Debug, Clone, PartialEq, Eq)]
pub struct Pin {
    pub id: NodeId,
    /// The public key, in hexadecimal.
    pub public_key: String,
    pub name: String,
    /// Seconds since the epoch.
    pub paired_at: u64,
    /// Where the machine was when it was last reached.
    pub last_address: Option<String>,
    /// It may start and stop models here.
    pub controller: bool,
    /// It may have benchmarks built and run here.
    pub bench: bool,
}

impl Pin {
    /// An equal pin.
    pub fn copy(&self) -> (r: Pin)
        ensures
            r == *self,
    {
        Pin {
            id: self.id,
            public_key: self.public_key.clone(),
            name: self.name.clone(),
            paired_at: self.paired_at,
            last_address: crate::bench::event::copy_opt(&self.last_address),
            controller: self.controller,
            bench: self.bench,
        }
    }
}

/// The pins, by identity.
#[derive(Debug)]
pub struct PinStore {
    pub pins: NodeMap<Pin>,
}

impl PinStore {
    /// What is pinned under an identity.
    pub open spec fn at(&self, id: NodeId) -> Option<Pin> {
        self.pins.at(id)
    }

    /// The store of a machine that has never paired.
    pub fn new() -> (r: Self)
        ensures
            forall|k: NodeId| #[trigger] r.at(k) is None,
            r.pins.listing() == Seq::<(NodeId, Pin)>::empty(),
    {
        let r = PinStore { pins: NodeMap::new() };
        assert forall|k: NodeId| #[trigger] r.at(k) is None by {
            crate::node::lemma_lookup_absent(r.pins.listing(), k);
        }
        r
    }

    /// Whether a machine is pinned.
    pub fn is_pinned(&self, id: NodeId) -> (r: bool)
        ensures
            r == (self.at(id) is Some),
    {
        self.pins.contains(id)
    }

    /// Pins a machine, in place of what was pinned under its identity.
    pub fn add(&mut self, pin: Pin)
        ensures
            forall|k: NodeId| #[trigger]
                final(self).at(k) == (if k == pin.id {
                    Some(pin)
                } else {
                    old(self).at(k)
                }),
    {
        self.pins.insert(pin.id, pin);
    }

    /// Takes a pin away, and its grants with it; whether there was one.
    pub fn remove(&mut self, id: NodeId) -> (r: bool)
        ensures
            r == (old(self).at(id) is Some),
            forall|k: NodeId| #[trigger]
                final(self).at(k) == (if k == id {
                    None
                } else {
                    old(self).at(k)
                }),
    {
        self.pins.remove(id)
    }

    /// Grants control to a pinned machine, or takes the grant back; whether
    /// there was a pin to write it on. A grant never creates a pin.
    pub fn set_controller(&mut self, id: NodeId, granted: bool) -> (r: bool)
        ensures
            r == (old(self).at(id) is Some),
            forall|k: NodeId| #[trigger]
                final(self).at(k) == (if k == id && r {
                    Some(Pin { controller: granted, ..old(self).at(id).unwrap() })
                } else {
                    old(self).at(k)
                }),
    {
        let found = match self.pins.get(id) {
            Some(p) => Some(p.copy()),
            None => None,
        };
        match found {
            Some(p) => {
                let mut pin = p;
                pin.controller = granted;
                self.pins.insert(id, pin);
                true
            },
            None => false,
        }
    }

    /// Grants benchmarks to a pinned machine, or takes the grant back;
    /// whether there was a pin to write it on.
    pub fn set_bench(&mut self, id: NodeId, granted: bool) -> (r: bool)
        ensures
            r == (old(self).at(id) is Some),
            forall|k: NodeId| #[trigger]
                final(self).at(k) == (if k == id && r {
                    Some(Pin { bench: granted, ..old(self).at(id).unwrap() })
                } else {
                    old(self).at(k)
                }),
    {
        let found = match self.pins.get(id) {
            Some(p) => Some(p.copy()),
            None => None,
        };
        match found {
            Some(p) => {
                let mut pin = p;
                pin.bench = granted;
                self.pins.insert(id, pin);
                true
            },
            None => false,
        }
    }
}

/// What was pinned, as far as it could be read.
pub type PinsRead = Result<PinStore, String>;

/// The pins that were read; none where they could not be.
pub open spec fn read_pins(pins: PinsRead) -> Seq<(NodeId, Pin)> {
    match pins {
        Ok(store) => store.pins.listing(),
        Err(_) => Seq::empty(),
    }
}

} // verus!
