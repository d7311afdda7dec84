//! Serving a paired machine's frames.
//!
//! The machine was authenticated before its first frame is looked at. Whether
//! it may give orders is another question, asked again for every frame that
//! carries one, so that a grant taken back has effect on the very next.
use crate::bench::reply::BenchRep;
use crate::cluster::{PrepareReply, RankAssignment};
use crate::control::{ControlRep, ControlReq};
use crate::daemon::bench_serve::BenchReq;
use crate::error::AgentError;
use crate::fleet::routing::Socket;
use crate::fleet::LocalFleet;
use crate::identity::{PinsRead, read_pins};
use crate::node::{lookup, NodeId};
use crate::text;
use vstd::prelude::*;

verus! {

/// The remedy for a machine that is paired and not granted control. It names
/// the machine to run the command on: the refusal is read on another one.
pub open spec fn control_remedy(sender: NodeId, local: NodeId) -> Seq<char> {
    sender.brief() + " is paired with "@ + local.brief()
        + " but not granted control of it. Run `metralectl peer grant-control "@ + sender.brief()
        + "` ON "@ + local.brief() + " to allow it."@
}

/// The remedy for a machine that is paired and not granted control.
pub fn grant_refusal(sender: NodeId, local: NodeId) -> (r: String)
    ensures
        r@ == control_remedy(sender, local),
{
    let s = sender.short();
    let l = local.short();
    let mut r = sender.short();
    r.append(" is paired with ");
    r.append(&l);
    r.append(" but not granted control of it. Run `metralectl peer grant-control ");
    r.append(&s);
    r.append("` ON ");
    r.append(&l);
    r.append(" to allow it.");
    r
}

/// Why a machine may not give orders; none where it may. Pins that cannot be
/// read grant nothing.
pub open spec fn control_denied(pins: PinsRead, sender: NodeId, local: NodeId) -> Option<
    Seq<char>,
> {
    match pins {
        Err(_) => Some("this agent's pin store could not be read; refusing control"@),
        Ok(_) => match lookup(read_pins(pins), sender) {
            Some(pin) => if pin.controller {
                None
            } else {
                Some(control_remedy(sender, local))
            },
            None => Some(sender.brief() + " is not paired with this machine"@),
        },
    }
}

/// Whether a machine may give orders, read from the pins as they are now.
pub fn grant_of(pins: &PinsRead, sender: NodeId, local: NodeId) -> (r: Result<(), String>)
    ensures
        match r {
            Ok(_) => control_denied(*pins, sender, local) is None,
            Err(why) => control_denied(*pins, sender, local) == Some(why@),
        },
{
    match pins {
        Err(_) => Err(
            text::copy("this agent's pin store could not be read; refusing control"),
        ),
        Ok(store) => match store.pins.get(sender) {
            Some(pin) => if pin.controller {
                Ok(())
            } else {
                Err(grant_refusal(sender, local))
            },
            None => {
                let s = sender.short();
                Err(text::cat2(&s, " is not paired with this machine"))
            },
        },
    }
}

/// What keeps a request from being carried out here.
pub fn terminal_gate<R>(pins: &PinsRead, sender: NodeId, local: NodeId) -> (r: Option<
    ControlRep<R>,
>)
    ensures
        match r {
            None => control_denied(*pins, sender, local) is None,
            Some(rep) => {
                &&& rep matches ControlRep::Refused { by, error }
                &&& by == local
                &&& error matches AgentError::ControlRefused { node, reason }
                &&& node == local
                &&& control_denied(*pins, sender, local) == Some(reason@)
            },
        },
{
    match grant_of(pins, sender, local) {
        Ok(_) => None,
        Err(reason) => Some(
            ControlRep::Refused {
                by: local,
                error: AgentError::ControlRefused { node: local, reason },
            },
        ),
    }
}

/// The answer to a request that was carried out here. A refusal names this
/// machine.
pub fn terminal_answer<R>(local: NodeId, done: Result<ControlRep<R>, AgentError>) -> (r: ControlRep<
    R,
>)
    ensures
        r == (match done {
            Ok(rep) => rep,
            Err(error) => ControlRep::Refused { by: local, error },
        }),
{
    match done {
        Ok(rep) => rep,
        Err(error) => ControlRep::Refused { by: local, error },
    }
}

/// A refusal to pass a request on: by whom, and for which machine.
pub open spec fn relay_refused<R>(
    r: ControlRep<R>,
    local: NodeId,
    node: NodeId,
    why: Seq<char>,
) -> bool {
    &&& r matches ControlRep::Refused { by, error }
    &&& by == local
    &&& error matches AgentError::RelayRefused { node: n, via, detail }
    &&& n == node
    &&& via == Some(local)
    &&& detail@ == why
}

fn refuse_relay<R>(local: NodeId, node: NodeId, detail: String) -> (r: ControlRep<R>)
    ensures
        relay_refused(r, local, node, detail@),
{
    ControlRep::Refused {
        by: local,
        error: AgentError::RelayRefused { node, via: Some(local), detail },
    }
}

impl<F: Copy> LocalFleet<F> {
    /// Why a request is not passed on; none where it is. The machine that
    /// asks needs the grant here as well as there: without it this machine's
    /// own grant would be spent for one that has none. The target must be
    /// paired with this machine, and its address is this machine's own: the
    /// request contributes nothing to it.
    pub open spec fn not_relayed(
        &self,
        asked: PinsRead,
        pins: PinsRead,
        sender: NodeId,
        node: NodeId,
        dialable: bool,
    ) -> Option<Seq<char>> {
        if control_denied(asked, sender, self.id) is Some {
            control_denied(asked, sender, self.id)
        } else if pins is Err {
            Some("this agent's pin store could not be read"@)
        } else if lookup(read_pins(pins), node) is None {
            Some(
                node.brief()
                    + " is not a peer of this agent; a relay only forwards to machines it has itself pinned"@,
            )
        } else if self.own_address(read_pins(pins), node) is None || !dialable {
            Some("this agent has no known address for "@ + node.brief())
        } else {
            None
        }
    }

    /// Decide whether a request for another machine is passed on, and where
    /// to. `asked` is what the pins read as when the grant was looked up, and
    /// `pins` what they read as when the target was. `dialable` says whether
    /// this machine's address of the target can be dialled.
    pub fn relay<R>(
        &self,
        asked: &PinsRead,
        pins: &PinsRead,
        sender: NodeId,
        node: NodeId,
        port: u16,
        dialable: bool,
    ) -> (r: Result<Socket, ControlRep<R>>)
        ensures
            match self.not_relayed(*asked, *pins, sender, node, dialable) {
                Some(why) => r matches Err(rep) && relay_refused(rep, self.id, node, why),
                None => r matches Ok(s) && self.own_address(read_pins(*pins), node) == Some(s.ip@)
                    && s.port == port,
            },
    {
        match grant_of(asked, sender, self.id) {
            Ok(_) => {},
            Err(why) => return Err(refuse_relay(self.id, node, why)),
        }
        let pinned = match pins {
            Ok(store) => store.is_pinned(node),
            Err(_) => {
                return Err(
                    refuse_relay(
                        self.id,
                        node,
                        text::copy("this agent's pin store could not be read"),
                    ),
                );
            },
        };
        if !pinned {
            let n = node.short();
            return Err(
                refuse_relay(
                    self.id,
                    node,
                    text::cat2(
                        &n,
                        " is not a peer of this agent; a relay only forwards to machines it has itself pinned",
                    ),
                ),
            );
        }
        match self.control_address(pins, node) {
            Some(ip) => if dialable {
                return Ok(Socket { ip, port });
            },
            None => {},
        }
        let n = node.short();
        Err(refuse_relay(self.id, node, text::cat2("this agent has no known address for ", &n)))
    }

    /// The answer to a request that was passed on: the target's own, or that
    /// it could not be had.
    pub fn relayed<R>(&self, node: NodeId, answer: Result<ControlRep<R>, String>) -> (r: ControlRep<
        R,
    >)
        ensures
            match answer {
                Ok(rep) => r == rep,
                Err(why) => relay_refused(r, self.id, node, why@),
            },
    {
        match answer {
            Ok(rep) => rep,
            Err(why) => refuse_relay(self.id, node, why),
        }
    }
}

/// A frame from a paired machine.
#[derive(Debug)]
pub enum PeerRequest {
    PreviewRank { assignment: RankAssignment },
    Prepare { assignment: RankAssignment, epoch: String },
    /// A commit carries no assignment: what starts is what this machine
    /// rendered and stored when it prepared.
    Commit { epoch: String },
    IsRankAlive { container: String },
    StopRank { container: String },
    Abort { epoch: String },
    Control { req: ControlReq },
    ControlTo { node: NodeId, req: ControlReq },
    Bench { req: BenchReq },
    /// Anything else: a greeting, a pairing frame.
    OutOfPlace,
}

/// What is done about a frame.
#[derive(Debug)]
pub enum Serve {
    Render { assignment: RankAssignment },
    Prepare { assignment: RankAssignment, epoch: String },
    Commit { epoch: String },
    Alive { container: String },
    Stop { container: String },
    Abort { epoch: String },
    /// Carry a request out here.
    Execute { req: ControlReq },
    /// Pass a request on.
    Relay { node: NodeId, req: ControlReq },
    /// Answer one bench request.
    Bench { req: BenchReq },
    /// Turn the connection into the event stream of a job.
    Attach { job: String, from_seq: u64 },
    /// End the conversation.
    HangUp,
}

/// What is done about a frame. A request that is to be carried out here
/// cannot name another machine, and one that is passed on is carried out where
/// it arrives: nothing is passed on twice. A frame that is out of place ends
/// the conversation.
pub open spec fn served(frame: PeerRequest) -> Serve {
    match frame {
        PeerRequest::PreviewRank { assignment } => Serve::Render { assignment },
        PeerRequest::Prepare { assignment, epoch } => Serve::Prepare { assignment, epoch },
        PeerRequest::Commit { epoch } => Serve::Commit { epoch },
        PeerRequest::IsRankAlive { container } => Serve::Alive { container },
        PeerRequest::StopRank { container } => Serve::Stop { container },
        PeerRequest::Abort { epoch } => Serve::Abort { epoch },
        PeerRequest::Control { req } => Serve::Execute { req },
        PeerRequest::ControlTo { node, req } => Serve::Relay { node, req },
        PeerRequest::Bench { req } => match req {
            BenchReq::Attach { job, from_seq } => Serve::Attach { job, from_seq },
            other => Serve::Bench { req: other },
        },
        PeerRequest::OutOfPlace => Serve::HangUp,
    }
}

/// What is done about a frame.
pub fn serve(frame: PeerRequest) -> (r: Serve)
    ensures
        r == served(frame),
{
    match frame {
        PeerRequest::PreviewRank { assignment } => Serve::Render { assignment },
        PeerRequest::Prepare { assignment, epoch } => Serve::Prepare { assignment, epoch },
        PeerRequest::Commit { epoch } => Serve::Commit { epoch },
        PeerRequest::IsRankAlive { container } => Serve::Alive { container },
        PeerRequest::StopRank { container } => Serve::Stop { container },
        PeerRequest::Abort { epoch } => Serve::Abort { epoch },
        PeerRequest::Control { req } => Serve::Execute { req },
        PeerRequest::ControlTo { node, req } => Serve::Relay { node, req },
        PeerRequest::Bench { req } => match req {
            BenchReq::Attach { job, from_seq } => Serve::Attach { job, from_seq },
            other => Serve::Bench { req: other },
        },
        PeerRequest::OutOfPlace => Serve::HangUp,
    }
}

/// What a frame is answered with.
#[derive(Debug)]
pub enum PeerReply<R> {
    RankPreviewed { command: String, unmapped: Vec<String> },
    RankRefused { reason: String },
    Prepared { epoch: String, reply: PrepareReply },
    Committed { epoch: String, container: String },
    RankLiveness { container: String, running: bool },
    RankStopped { container: String },
    Aborted { epoch: String },
    ControlReply { rep: ControlRep<R> },
    BenchReply { rep: BenchRep },
}

/// What came of a frame about a rank.
#[derive(Debug)]
pub enum RankDid {
    Rendered(Result<(String, Vec<String>), String>),
    Prepared { epoch: String, reply: PrepareReply },
    Committed { epoch: String, container: Result<String, String> },
    Looked { container: String, alive: Result<bool, String> },
    Stopped { container: String },
    Aborted { epoch: String },
}

/// The answer to a frame about a rank. A rank whose state cannot be read is
/// not alive. A stop and an abort are acknowledged, whatever came of them: the
/// head is rolling back, and has nothing to do with the reason.
pub open spec fn rank_replied<R>(did: RankDid) -> PeerReply<R> {
    match did {
        RankDid::Rendered(Ok((command, unmapped))) => PeerReply::RankPreviewed {
            command,
            unmapped,
        },
        RankDid::Rendered(Err(reason)) => PeerReply::RankRefused { reason },
        RankDid::Prepared { epoch, reply } => PeerReply::Prepared { epoch, reply },
        RankDid::Committed { epoch, container: Ok(container) } => PeerReply::Committed {
            epoch,
            container,
        },
        RankDid::Committed { epoch, container: Err(reason) } => PeerReply::RankRefused { reason },
        RankDid::Looked { container, alive } => PeerReply::RankLiveness {
            container,
            running: match alive {
                Ok(b) => b,
                Err(_) => false,
            },
        },
        RankDid::Stopped { container } => PeerReply::RankStopped { container },
        RankDid::Aborted { epoch } => PeerReply::Aborted { epoch },
    }
}

/// The answer to a frame about a rank.
pub fn rank_reply<R>(did: RankDid) -> (r: PeerReply<R>)
    ensures
        r == rank_replied::<R>(did),
{
    match did {
        RankDid::Rendered(Ok((command, unmapped))) => PeerReply::RankPreviewed {
            command,
            unmapped,
        },
        RankDid::Rendered(Err(reason)) => PeerReply::RankRefused { reason },
        RankDid::Prepared { epoch, reply } => PeerReply::Prepared { epoch, reply },
        RankDid::Committed { epoch, container: Ok(container) } => PeerReply::Committed {
            epoch,
            container,
        },
        RankDid::Committed { container: Err(reason), .. } => PeerReply::RankRefused { reason },
        RankDid::Looked { container, alive } => {
            let running = match alive {
                Ok(b) => b,
                Err(_) => false,
            };
            PeerReply::RankLiveness { container, running }
        },
        RankDid::Stopped { container } => PeerReply::RankStopped { container },
        RankDid::Aborted { epoch } => PeerReply::Aborted { epoch },
    }
}

// ---------------------------------------------------------------------------
// Laws
// ---------------------------------------------------------------------------

/// Law: pairing is not permission. A machine is obeyed exactly where its pin
/// can be read and carries the control grant.
pub proof fn law_only_a_grant_is_obeyed(pins: PinsRead, sender: NodeId, local: NodeId)
    ensures
        control_denied(pins, sender, local) is None <==> pins is Ok && (lookup(
            read_pins(pins),
            sender,
        ) matches Some(pin) && pin.controller),
{
}

/// Law: a relay is nobody's deputy. A request is passed on only for a machine
/// that is granted control here, only to a machine that is paired here, and
/// only to the address that this machine itself has of it.
pub proof fn law_a_relay_is_no_deputy<F: Copy>(
    f: LocalFleet<F>,
    asked: PinsRead,
    pins: PinsRead,
    sender: NodeId,
    node: NodeId,
    dialable: bool,
)
    requires
        f.not_relayed(asked, pins, sender, node, dialable) is None,
    ensures
        control_denied(asked, sender, f.id) is None,
        lookup(read_pins(pins), node) is Some,
        f.own_address(read_pins(pins), node) is Some,
{
}

/// Law: what is carried out here goes no further. Only a frame that names
/// another machine is passed on, and what is passed on is its request.
pub proof fn law_nothing_is_passed_on_unasked(frame: PeerRequest)
    ensures
        served(frame) matches Serve::Relay { node, req } ==> frame == (PeerRequest::ControlTo {
            node,
            req,
        }),
        frame is Control ==> served(frame) is Execute,
{
}

/// Law: a request is passed on wherever it may be: for a machine that is
/// granted control here, to one that is paired here and that this machine has
/// an address of that can be dialled.
pub proof fn law_a_request_is_passed_on_where_it_may_be<F: Copy>(
    f: LocalFleet<F>,
    asked: PinsRead,
    pins: PinsRead,
    sender: NodeId,
    node: NodeId,
    dialable: bool,
)
    ensures
        f.not_relayed(asked, pins, sender, node, dialable) is None <==> {
            &&& asked is Ok
            &&& lookup(read_pins(asked), sender) matches Some(pin) && pin.controller
            &&& pins is Ok
            &&& lookup(read_pins(pins), node) is Some
            &&& f.own_address(read_pins(pins), node) is Some
            &&& dialable
        },
{
}

/// Law: every frame is served as what it is, with what it holds, and a frame
/// that is out of its place ends the connection.
pub proof fn law_every_frame_is_served_as_what_it_is(frame: PeerRequest)
    ensures
        frame matches PeerRequest::PreviewRank { assignment: a } ==> (served(
            frame,
        ) matches Serve::Render { assignment } && assignment == a),
        frame matches PeerRequest::Prepare { assignment: a, epoch: e } ==> (served(
            frame,
        ) matches Serve::Prepare { assignment, epoch } && assignment == a && epoch == e),
        frame matches PeerRequest::Commit { epoch: e } ==> (served(frame) matches Serve::Commit {
            epoch,
        } && epoch == e),
        frame matches PeerRequest::Abort { epoch: e } ==> (served(frame) matches Serve::Abort {
            epoch,
        } && epoch == e),
        frame matches PeerRequest::IsRankAlive { container: c } ==> (served(
            frame,
        ) matches Serve::Alive { container } && container == c),
        frame matches PeerRequest::StopRank { container: c } ==> (served(frame) matches Serve::Stop {
            container,
        } && container == c),
        frame matches PeerRequest::Control { req: q } ==> (served(frame) matches Serve::Execute {
            req,
        } && req == q),
        frame matches PeerRequest::ControlTo { node: n, req: q } ==> (served(
            frame,
        ) matches Serve::Relay { node, req } && node == n && req == q),
        frame matches PeerRequest::Bench { req: BenchReq::Attach { job: j, from_seq: s } } ==> (
        served(frame) matches Serve::Attach { job, from_seq } && job == j && from_seq == s),
        frame matches PeerRequest::Bench { req: q } ==> !(q is Attach) ==> (served(
            frame,
        ) matches Serve::Bench { req } && req == q),
        served(frame) is HangUp <==> frame is OutOfPlace,
{
}

/// Law: a rank answers what came of it: what was done, or why it was not; and
/// one whose container could not be looked at counts as not running.
pub proof fn law_a_rank_answers_what_came_of_it<R>(did: RankDid)
    ensures
        ({
            let r = rank_replied::<R>(did);
            &&& did matches RankDid::Rendered(Ok(p)) ==> (r matches PeerReply::RankPreviewed {
                command,
                unmapped,
            } && command == p.0 && unmapped == p.1)
            &&& did matches RankDid::Rendered(Err(why)) ==> (r matches PeerReply::RankRefused {
                reason,
            } && reason == why)
            &&& did matches RankDid::Prepared { epoch: e, reply: q } ==> (
            r matches PeerReply::Prepared { epoch, reply } && epoch == e && reply == q)
            &&& did matches RankDid::Committed { epoch: e, container: Ok(c) } ==> (
            r matches PeerReply::Committed { epoch, container } && epoch == e && container == c)
            &&& did matches RankDid::Committed { container: Err(why), .. } ==> (
            r matches PeerReply::RankRefused { reason } && reason == why)
            &&& did matches RankDid::Looked { container: c, alive } ==> (
            r matches PeerReply::RankLiveness { container, running } && container == c && (
            running <==> (alive matches Ok(b) && b)))
            &&& did matches RankDid::Stopped { container: c } ==> (
            r matches PeerReply::RankStopped { container } && container == c)
            &&& did matches RankDid::Aborted { epoch: e } ==> (r matches PeerReply::Aborted {
                epoch,
            } && epoch == e)
        }),
{
}

} // verus!
