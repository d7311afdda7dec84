//! Pairing with a machine that was seen, or whose address was typed.
//!
//! The ceremony itself is run by whoever holds the transport; what is decided
//! here is whether it may begin, which address is dialled next, and what its
//! end means. Nothing here writes a pin: an exchange that completed proves
//! that both machines derived the same key, and a person must still accept
//! the machine.
use crate::fleet::pinning::record_pairing;
use crate::fleet::routing::Socket;
use crate::fleet::LocalFleet;
use crate::identity::PinStore;
use crate::name::{display_name, shown};
use crate::node::NodeId;
use crate::pairing::{is_code, looks_like_code, CODE_DIGITS};
use crate::text;
use vstd::prelude::*;

verus! {

/// What a completed ceremony gives.
#[derive(Debug, Clone, PartialEq, Eq)]
pub struct Paired {
    pub node: NodeId,
    pub public_key: String,
    pub name: String,
    /// The words that two people compare.
    pub verification: String,
}

/// A pairing that waits to be accepted.
#[derive(Debug, Clone, PartialEq, Eq)]
pub struct PairOutcome {
    pub node: NodeId,
    pub public_key: String,
    pub name: String,
    /// Where the machine was reached.
    pub address: String,
    pub verification: String,
}

/// How dialling one address ended.
#[derive(Debug, Clone, PartialEq, Eq)]
pub enum DialAnswer {
    /// The ceremony completed.
    Paired(Paired),
    /// Nothing answered there.
    Unreachable(String),
    /// Something answered, and the ceremony failed.
    Refused(String),
}

/// What comes next.
#[derive(Debug, PartialEq, Eq)]
pub enum PairStep {
    /// Run the ceremony at this address.
    Dial { addr: Socket },
    /// The pairing is over.
    Failed { why: String },
    /// The exchange completed, and waits to be accepted.
    Exchanged { outcome: PairOutcome },
}

/// The addresses of one machine, tried one after the other.
#[derive(Debug)]
pub struct PairWalk {
    /// The machine that was chosen from the list; none where an address was
    /// typed.
    pub selected: Option<NodeId>,
    pub addrs: Vec<Socket>,
    /// The address being dialled.
    pub at: usize,
    /// What came of those before it.
    pub reasons: Vec<String>,
}

impl Socket {
    /// The address and the port as one text. An address with colons in it is
    /// put in brackets.
    pub open spec fn shown(self) -> Seq<char> {
        if exists|i: int| 0 <= i < self.ip@.len() && self.ip@[i] == ':' {
            "["@ + self.ip@ + "]:"@ + text::dec(self.port as nat)
        } else {
            self.ip@ + ":"@ + text::dec(self.port as nat)
        }
    }

    /// The address and the port as one text.
    pub fn text(&self) -> (r: String)
        ensures
            r@ == self.shown(),
    {
        let digits = text::decimal(self.port as u64);
        if text::has_char(&self.ip, ':') {
            let mut s = text::cat3("[", &self.ip, "]:");
            s.append(&digits);
            s
        } else {
            text::cat3(&self.ip, ":", &digits)
        }
    }

    /// An equal one.
    pub fn copy(&self) -> (r: Socket)
        ensures
            r == *self,
    {
        Socket { ip: self.ip.clone(), port: self.port }
    }
}

/// What the failure at an address adds to the report.
pub open spec fn failed_at(addr: Socket, why: Seq<char>) -> Seq<char> {
    addr.shown() + ": "@ + why
}

/// The report of a walk that ended without a pairing. Every address that was
/// tried is named, with what came of it.
pub open spec fn walk_report(reasons: Seq<Seq<char>>) -> Seq<char> {
    "could not pair over any advertised address — "@ + text::joined(reasons, "; "@)
}

/// The refusal of a code that is none.
pub open spec fn bad_code() -> Seq<char> {
    "a pairing code is "@ + text::dec(CODE_DIGITS as nat) + " digits"@
}

fn bad_code_text() -> (r: String)
    ensures
        r@ == bad_code(),
{
    let digits = text::decimal(CODE_DIGITS as u64);
    text::cat3("a pairing code is ", &digits, " digits")
}

impl PairWalk {
    /// There is an address to dial.
    pub open spec fn going(&self) -> bool {
        self.at < self.addrs@.len()
    }

    /// What an answer makes of the walk.
    ///
    /// Only a failure to reach the machine earns another address: every
    /// address is the same machine, and a refusal has already spent one of
    /// the attempts that its code allows. A machine that answered must be the
    /// one that was selected.
    pub open spec fn heard(self, answer: DialAnswer, next: PairWalk, step: PairStep) -> bool {
        let addr = self.addrs@[self.at as int];
        match answer {
            DialAnswer::Paired(p) => {
                &&& next == self
                &&& if self.selected is Some && self.selected.unwrap() != p.node {
                    step matches PairStep::Failed { why } && why@ == "reached "@ + p.node.brief()
                        + " at "@ + addr.shown() + ", but "@ + self.selected.unwrap().brief()
                        + " was selected"@
                } else {
                    step matches PairStep::Exchanged { outcome } && outcome == (PairOutcome {
                        node: p.node,
                        public_key: p.public_key,
                        name: p.name,
                        address: addr.ip,
                        verification: p.verification,
                    })
                }
            },
            DialAnswer::Refused(why) => {
                &&& next.at == self.at
                &&& next.addrs == self.addrs
                &&& next.selected == self.selected
                &&& text::views(next.reasons@) == text::views(self.reasons@).push(
                    failed_at(addr, why@),
                )
                &&& step matches PairStep::Failed { why: all } && all@ == walk_report(
                    text::views(next.reasons@),
                )
            },
            DialAnswer::Unreachable(why) => {
                &&& next.at == self.at + 1
                &&& next.addrs == self.addrs
                &&& next.selected == self.selected
                &&& text::views(next.reasons@) == text::views(self.reasons@).push(
                    failed_at(addr, why@),
                )
                &&& if next.going() {
                    step matches PairStep::Dial { addr: a } && a == self.addrs@[self.at + 1]
                } else {
                    step matches PairStep::Failed { why: all } && all@ == walk_report(
                        text::views(next.reasons@),
                    )
                }
            },
        }
    }

    fn note(&mut self, why: &str)
        requires
            old(self).going(),
        ensures
            *final(self) == (PairWalk { reasons: final(self).reasons, ..*old(self) }),
            text::views(final(self).reasons@) == text::views(old(self).reasons@).push(
                failed_at(old(self).addrs@[old(self).at as int], why@),
            ),
    {
        let shown = self.addrs[self.at].text();
        let line = text::cat3(&shown, ": ", why);
        let ghost was = self.reasons@;
        self.reasons.push(line);
        assert(text::views(self.reasons@) =~= text::views(was).push(line@));
    }

    fn report(&self) -> (r: String)
        ensures
            r@ == walk_report(text::views(self.reasons@)),
    {
        let all = text::join(&self.reasons, "; ");
        text::cat2("could not pair over any advertised address — ", &all)
    }

    /// Take the answer from the address being dialled, and say what comes
    /// next.
    pub fn hear(&mut self, answer: DialAnswer) -> (step: PairStep)
        requires
            old(self).going(),
        ensures
            old(self).heard(answer, *final(self), step),
    {
        match answer {
            DialAnswer::Paired(p) => {
                match self.selected {
                    Some(node) => if node != p.node {
                        let found = p.node.short();
                        let shown = self.addrs[self.at].text();
                        let wanted = node.short();
                        let mut why = text::cat3("reached ", &found, " at ");
                        why.append(&shown);
                        why.append(", but ");
                        why.append(&wanted);
                        why.append(" was selected");
                        return PairStep::Failed { why };
                    },
                    None => {},
                }
                PairStep::Exchanged {
                    outcome: PairOutcome {
                        node: p.node,
                        public_key: p.public_key,
                        name: p.name,
                        address: self.addrs[self.at].ip.clone(),
                        verification: p.verification,
                    },
                }
            },
            DialAnswer::Refused(why) => {
                self.note(&why);
                PairStep::Failed { why: self.report() }
            },
            DialAnswer::Unreachable(why) => {
                self.note(&why);
                assert(self.addrs@.len() == self.addrs.len());
                self.at = self.at + 1;
                if self.at < self.addrs.len() {
                    PairStep::Dial { addr: self.addrs[self.at].copy() }
                } else {
                    PairStep::Failed { why: self.report() }
                }
            },
        }
    }
}

/// A walk over addresses, at its first.
pub open spec fn fresh(w: PairWalk, selected: Option<NodeId>) -> bool {
    w.selected == selected && w.at == 0 && w.reasons@.len() == 0 && w.addrs@.len() > 0
}

impl<F: Copy> LocalFleet<F> {
    /// What asking to pair with a listed machine comes to. The code is looked
    /// at first, before the network is touched.
    pub open spec fn may_pair(
        &self,
        node: NodeId,
        code: Seq<char>,
        transport: bool,
        r: Result<PairWalk, String>,
    ) -> bool {
        if !is_code(code) {
            r matches Err(why) && why@ == bad_code()
        } else {
            match self.seen.at(node) {
                None => r matches Err(why) && why@ == "that node is not visible on this network"@,
                Some(s) => if !transport {
                    r matches Err(why) && why@
                        == "this agent has no peer transport, so it cannot run a pairing ceremony"@
                } else if s.beacon.addresses@.len() == 0 {
                    r matches Err(why) && why@ == s.beacon.name@
                        + " advertised no address to dial"@
                } else {
                    r matches Ok(w) && fresh(w, Some(node)) && w.addrs@.len()
                        == s.beacon.addresses@.len() && forall|i: int|
                        0 <= i < w.addrs@.len() ==> (#[trigger] w.addrs@[i]).ip
                            == s.beacon.addresses@[i] && w.addrs@[i].port == s.beacon.peer_port
                },
            }
        }
    }

    /// Begin to pair with a machine that was seen: every address it
    /// advertised, in its own order, on the port it advertised. Its best link
    /// is often one that this machine is not on, so its preference is an
    /// order and not the only attempt.
    pub fn pair(&self, node: NodeId, code: &str, transport: bool) -> (r: Result<PairWalk, String>)
        ensures
            self.may_pair(node, code@, transport, r),
    {
        if !looks_like_code(code) {
            return Err(bad_code_text());
        }
        let s = match self.seen.get(node) {
            Some(s) => s,
            None => return Err(text::copy("that node is not visible on this network")),
        };
        if !transport {
            return Err(
                text::copy(
                    "this agent has no peer transport, so it cannot run a pairing ceremony",
                ),
            );
        }
        if s.beacon.addresses.len() == 0 {
            return Err(text::cat2(&s.beacon.name, " advertised no address to dial"));
        }
        let mut addrs: Vec<Socket> = Vec::new();
        let mut i: usize = 0;
        while i < s.beacon.addresses.len()
            invariant
                i <= s.beacon.addresses@.len(),
                addrs@.len() == i,
                forall|k: int|
                    0 <= k < i ==> (#[trigger] addrs@[k]).ip == s.beacon.addresses@[k]
                        && addrs@[k].port == s.beacon.peer_port,
            decreases s.beacon.addresses@.len() - i,
        {
            addrs.push(Socket { ip: s.beacon.addresses[i].clone(), port: s.beacon.peer_port });
            i += 1;
        }
        Ok(PairWalk { selected: Some(node), addrs, at: 0, reasons: Vec::new() })
    }
}

/// What asking to pair with a typed address comes to.
pub open spec fn may_pair_at(
    target: Seq<char>,
    code: Seq<char>,
    transport: bool,
    resolved: Result<Vec<Socket>, String>,
    r: Result<PairWalk, String>,
) -> bool {
    if !is_code(code) {
        r matches Err(why) && why@ == bad_code()
    } else if !transport {
        r matches Err(why) && why@
            == "this agent has no peer transport, so it cannot run a pairing ceremony"@
    } else {
        match resolved {
            Err(e) => r matches Err(why) && why == e,
            Ok(addrs) => if addrs@.len() == 0 {
                r matches Err(why) && why@ == target + " resolved to no address"@
            } else {
                r matches Ok(w) && fresh(w, None) && w.addrs == addrs
            },
        }
    }
}

/// Begin to pair with whatever answers at a typed address. `resolved` is what
/// the name resolved to; every address of it is tried. No machine was
/// selected, so whoever answers is judged by the words alone.
pub fn pair_at(
    target: &str,
    code: &str,
    transport: bool,
    resolved: Result<Vec<Socket>, String>,
) -> (r: Result<PairWalk, String>)
    ensures
        may_pair_at(target@, code@, transport, resolved, r),
{
    if !looks_like_code(code) {
        return Err(bad_code_text());
    }
    if !transport {
        return Err(
            text::copy("this agent has no peer transport, so it cannot run a pairing ceremony"),
        );
    }
    match resolved {
        Err(e) => Err(e),
        Ok(addrs) => if addrs.len() == 0 {
            Err(text::cat2(target, " resolved to no address"))
        } else {
            Ok(PairWalk { selected: None, addrs, at: 0, reasons: Vec::new() })
        },
    }
}

/// Accept a pairing: the pin is written, with the control grant that the
/// person chose. The name is the other machine's own claim, and is pinned as
/// it is shown.
pub fn trust(pins: &mut PinStore, outcome: &PairOutcome, allow_control: bool, now_unix: u64)
    ensures
        forall|k: NodeId| k != outcome.node ==> #[trigger] final(pins).at(k) == old(pins).at(k),
        final(pins).at(outcome.node) matches Some(p) && p.id == outcome.node && p.public_key@
            == outcome.public_key@ && p.name@ == shown(outcome.name@) && p.paired_at == now_unix
            && p.last_address == Some(outcome.address) && p.controller == allow_control && !p.bench,
{
    let name = display_name(&outcome.name);
    record_pairing(
        pins,
        outcome.node,
        &outcome.public_key,
        &name,
        now_unix,
        Some(outcome.address.clone()),
        allow_control,
    );
}

// ---------------------------------------------------------------------------
// Laws
// ---------------------------------------------------------------------------

/// Law: a refusal costs one attempt. A machine that answered and refused is
/// not dialled at another of its addresses; one that was not reached is, until
/// its addresses are used up.
pub proof fn law_a_refusal_ends_the_walk(w: PairWalk, answer: DialAnswer, next: PairWalk, step: PairStep)
    requires
        w.going(),
        w.heard(answer, next, step),
    ensures
        answer is Refused ==> step is Failed,
        answer is Paired ==> !(step is Dial),
        step is Dial ==> answer is Unreachable && next.at == w.at + 1 && next.going(),
        answer is Unreachable && w.at + 1 < w.addrs@.len() ==> step is Dial,
{
}

/// Law: the machine that answered is the one that was selected, or the
/// pairing fails.
pub proof fn law_only_the_selected_machine_is_offered(
    w: PairWalk,
    answer: DialAnswer,
    next: PairWalk,
    step: PairStep,
)
    requires
        w.going(),
        w.heard(answer, next, step),
    ensures
        step matches PairStep::Exchanged { outcome } ==> (w.selected is Some ==> outcome.node
            == w.selected.unwrap()),
{
}

/// Law: a walk goes through the addresses in their order, one at a time, and
/// what it reports at its end holds the reason of every address that it tried.
pub proof fn law_a_walk_goes_through_every_address(
    w: PairWalk,
    why: String,
    next: PairWalk,
    step: PairStep,
)
    requires
        w.going(),
        w.heard(DialAnswer::Unreachable(why), next, step),
    ensures
        next.addrs == w.addrs,
        next.at == w.at + 1,
        next.reasons@.len() == w.reasons@.len() + 1,
        forall|i: int|
            0 <= i < w.reasons@.len() ==> (#[trigger] next.reasons@[i])@ == w.reasons@[i]@,
        next.reasons@.last()@ == w.addrs@[w.at as int].shown() + ": "@ + why@,
        w.at + 1 < w.addrs@.len() ==> step == (PairStep::Dial { addr: w.addrs@[w.at + 1] }),
        w.at + 1 >= w.addrs@.len() ==> (step matches PairStep::Failed { why: all } && all@
            == "could not pair over any advertised address — "@ + text::joined(
            text::views(next.reasons@),
            "; "@,
        )),
{
    let a = text::views(w.reasons@);
    let b = text::views(next.reasons@);
    assert(b == a.push(failed_at(w.addrs@[w.at as int], why@)));
    assert(b.len() == next.reasons@.len());
    assert forall|i: int| 0 <= i < w.reasons@.len() implies (#[trigger] next.reasons@[i])@
        == w.reasons@[i]@ by {
        assert(b[i] == a[i]);
    }
    assert(b[w.reasons@.len() as int] == next.reasons@[w.reasons@.len() as int]@);
}

/// Law: what a machine answered is what is offered for pairing, with the
/// address at which it answered, exactly where it is the one that was selected
/// or none was.
pub proof fn law_what_was_answered_is_offered(
    w: PairWalk,
    answer: DialAnswer,
    next: PairWalk,
    step: PairStep,
)
    requires
        w.going(),
        w.heard(answer, next, step),
    ensures
        answer matches DialAnswer::Paired(p) ==> {
            &&& step is Exchanged <==> (w.selected is None || w.selected == Some(p.node))
            &&& step matches PairStep::Exchanged { outcome } ==> outcome.node == p.node
                && outcome.public_key == p.public_key && outcome.name == p.name
                && outcome.verification == p.verification && outcome.address
                == w.addrs@[w.at as int].ip
        },
        !(answer is Paired) ==> !(step is Exchanged),
{
}

/// Law: a pairing starts exactly where the code is eight digits, the machine
/// was seen, it said where to dial it, and this agent can dial; and then every
/// address that it announced is dialled, at the port that it announced.
pub proof fn law_a_pairing_starts_where_it_can<F: Copy>(
    f: LocalFleet<F>,
    node: NodeId,
    code: Seq<char>,
    transport: bool,
    r: Result<PairWalk, String>,
    i: int,
)
    requires
        f.may_pair(node, code, transport, r),
    ensures
        r is Ok <==> code.len() == 8 && text::all_digits(code) && transport && (f.seen.at(
            node,
        ) matches Some(s) && s.beacon.addresses@.len() > 0),
        r matches Ok(w) ==> {
            let b = f.seen.at(node).unwrap().beacon;
            &&& w.selected == Some(node)
            &&& w.at == 0
            &&& w.addrs@.len() == b.addresses@.len()
            &&& 0 <= i < w.addrs@.len() ==> w.addrs@[i].ip == b.addresses@[i] && w.addrs@[i].port
                == b.peer_port
        },
{
}

/// Law: a pairing with an address that was typed starts exactly where the code
/// is eight digits, this agent can dial, and the address led somewhere; what
/// it led to is dialled in its order, whoever may answer there.
pub proof fn law_a_typed_address_is_paired_with(
    target: Seq<char>,
    code: Seq<char>,
    transport: bool,
    resolved: Result<Vec<Socket>, String>,
    r: Result<PairWalk, String>,
)
    requires
        may_pair_at(target, code, transport, resolved, r),
    ensures
        r is Ok <==> code.len() == 8 && text::all_digits(code) && transport && (
        resolved matches Ok(a) && a@.len() > 0),
        r matches Ok(w) ==> resolved == Ok::<Vec<Socket>, String>(w.addrs) && w.at == 0
            && w.selected is None,
{
}

/// Law: an address is shown with its port behind a colon, and in brackets
/// where it has colons of its own.
pub proof fn law_a_socket_is_shown_with_its_port(s: Socket)
    ensures
        !s.ip@.contains(':') ==> s.shown() == s.ip@ + ":"@ + text::dec(s.port as nat),
        s.ip@.contains(':') ==> s.shown() == "["@ + s.ip@ + "]:"@ + text::dec(s.port as nat),
{
    if s.ip@.contains(':') {
        let i = choose|i: int| 0 <= i < s.ip@.len() && s.ip@[i] == ':';
        assert(s.ip@[i] == ':');
    }
}

} // verus!
