//! Serving a machine that is not paired yet.
//!
//! A stranger inside a join window may pair and nothing else. Every connection
//! that gets this far has been charged an attempt, whatever comes of it.
use crate::fleet::pairing::Paired;
use crate::fleet::record_pairing;
use crate::identity::PinStore;
use crate::joining::JoinWindow;
use crate::name::{display_name, shown};
use crate::node::NodeId;
use crate::text;
use vstd::prelude::*;

verus! {

/// How long a stranger gets to finish a handshake, in milliseconds.
pub const HANDSHAKE_TIMEOUT: u64 = 10_000;

/// How long a stranger gets to finish the pairing ceremony, in milliseconds.
pub const JOIN_TIMEOUT: u64 = 30_000;

/// What a completed ceremony comes to.
#[derive(Debug, Clone, PartialEq, Eq)]
pub enum Joined {
    /// The invitation was spent by another machine; what is logged.
    Refused { log: String },
    /// The machine is paired; what is logged.
    Admitted { log: String },
}

/// What is logged of a machine that came too late.
pub open spec fn too_late(node: NodeId) -> Seq<char> {
    "refusing "@ + node.brief()
        + ": that invitation was already used by another machine. Mint a fresh one to add this node."@
}

/// What is logged of a machine that was admitted: its name, cleaned, because
/// it is the machine's own claim, and the words that someone may compare.
pub open spec fn welcome(p: Paired) -> Seq<char> {
    "paired with "@ + shown(p.name@) + " ("@ + p.node.brief() + ") — verification words: "@
        + p.verification@
}

/// What is logged where a pairing could not be written down: the other
/// machine believes in it, and this one does not.
pub fn unrecorded(node: NodeId, why: &str) -> (r: String)
    ensures
        r@ == "pairing with "@ + node.brief() + " completed but could not be recorded: "@ + why@
            + ". The peer believes it is paired; this machine does not."@,
{
    let n = node.short();
    let mut s = text::cat3("pairing with ", &n, " completed but could not be recorded: ");
    s.append(why);
    s.append(". The peer believes it is paired; this machine does not.");
    s
}

/// Admit the machine whose ceremony completed, where its invitation is still
/// there to be spent.
///
/// The invitation is spent whether or not the pin can be written down
/// afterwards, because the code has been seen on the wire. The grant is the
/// one chosen when the invitation was minted.
pub fn admit_joiner(
    window: &mut JoinWindow,
    pins: &mut PinStore,
    paired: &Paired,
    now_unix: u64,
) -> (r: Joined)
    ensures
        final(window).invitation() is None,
        forall|k: NodeId| k != paired.node ==> #[trigger] final(pins).at(k) == old(pins).at(k),
        match old(window).invitation() {
            None => {
                &&& r matches Joined::Refused { log } && log@ == too_late(paired.node)
                &&& final(pins).at(paired.node) == old(pins).at(paired.node)
            },
            Some(i) => {
                &&& r matches Joined::Admitted { log } && log@ == welcome(*paired)
                &&& final(pins).at(paired.node) matches Some(p) && p.id == paired.node
                    && p.public_key@ == paired.public_key@ && p.name@ == shown(paired.name@)
                    && p.paired_at == now_unix && p.last_address is None && p.controller
                    == i.allow_control && !p.bench
            },
        },
{
    let brief = paired.node.short();
    match window.consume() {
        None => Joined::Refused {
            log: text::cat3(
                "refusing ",
                &brief,
                ": that invitation was already used by another machine. Mint a fresh one to add this node.",
            ),
        },
        Some(consumed) => {
            let name = display_name(&paired.name);
            record_pairing(
                pins,
                paired.node,
                &paired.public_key,
                &name,
                now_unix,
                None,
                consumed.allow_control,
            );
            let mut log = text::cat3("paired with ", &name, " (");
            log.append(&brief);
            log.append(") — verification words: ");
            log.append(&paired.verification);
            Joined::Admitted { log }
        },
    }
}

} // verus!
