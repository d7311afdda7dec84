//! Serving the bench frames: the grant, the requests, and the attached event
//! stream.
//!
//! Nothing from the wire reaches a process: what is run is rendered from the
//! node's own configuration.
use crate::bench::event::{BenchEvent, EventKind, JobState};
use crate::bench::host::Submission;
use crate::bench::journal::{
    consecutive, law_replay_resumes_from_any_number, numbered, written,
};
use crate::bench::reply::{not_configured, BenchRefusal, BenchRep};
use crate::identity::{PinsRead, read_pins};
use crate::node::{lookup, NodeId};
use crate::text;
use vstd::prelude::*;

verus! {

/// How long a write to an attached client may block before the client is
/// judged gone, in milliseconds.
pub const WRITE_TIMEOUT: u64 = 30_000;

/// A bench request.
#[derive(Debug)]
pub enum BenchReq {
    NodeInfo,
    Submit { submission: Submission },
    Status { job: Option<String> },
    Cancel { job: String },
    ArtifactList { job: String },
    ArtifactChunk { job: String, name: String, offset: u64, len: u32 },
    Attach { job: String, from_seq: u64 },
}

/// The remedy for a machine that is paired and not granted benchmarks, naming
/// the machine it must be run on.
pub open spec fn bench_remedy(sender: NodeId, local: NodeId) -> Seq<char> {
    "metralectl peer grant-bench "@ + sender.brief() + " ON "@ + local.brief()
}

/// The remedy, naming the machine it must be run on.
pub fn bench_grant_refusal(sender: NodeId, local: NodeId) -> (r: BenchRefusal)
    ensures
        r matches BenchRefusal::NotGranted { command } && command@ == bench_remedy(sender, local),
{
    let s = sender.short();
    let l = local.short();
    let mut command = text::cat3("metralectl peer grant-bench ", &s, " ON ");
    command.append(&l);
    BenchRefusal::NotGranted { command }
}

/// A machine whose pin can be read and carries the bench grant.
pub open spec fn bench_granted(pins: PinsRead, sender: NodeId) -> bool {
    pins is Ok && (lookup(read_pins(pins), sender) matches Some(pin) && pin.bench)
}

/// Why a machine may not have benchmarks run. Control is another grant.
pub open spec fn bench_denied(pins: PinsRead, sender: NodeId, local: NodeId, r: BenchRefusal) -> bool {
    match pins {
        Err(_) => not_configured(
            r,
            "this agent's pin store could not be read"@,
            "check the config directory's permissions on the node"@,
        ),
        Ok(_) => match lookup(read_pins(pins), sender) {
            Some(_) => r matches BenchRefusal::NotGranted { command } && command@ == bench_remedy(
                sender,
                local,
            ),
            None => not_configured(
                r,
                sender.brief() + " is not paired with this machine"@,
                "pair first (`metralectl agent pair` on the node, `metralectl peer add` here)"@,
            ),
        },
    }
}

/// Whether a machine may have benchmarks run, read from the pins as they are
/// now.
pub fn grant_of(pins: &PinsRead, sender: NodeId, local: NodeId) -> (r: Result<(), BenchRefusal>)
    ensures
        r is Ok <==> bench_granted(*pins, sender),
        r matches Err(e) ==> bench_denied(*pins, sender, local, e),
{
    match pins {
        Err(_) => Err(
            BenchRefusal::NotConfigured {
                what: text::copy("this agent's pin store could not be read"),
                fix: text::copy("check the config directory's permissions on the node"),
            },
        ),
        Ok(store) => match store.pins.get(sender) {
            Some(pin) => if pin.bench {
                Ok(())
            } else {
                Err(bench_grant_refusal(sender, local))
            },
            None => {
                let s = sender.short();
                Err(
                    BenchRefusal::NotConfigured {
                        what: text::cat2(&s, " is not paired with this machine"),
                        fix: text::copy(
                            "pair first (`metralectl agent pair` on the node, `metralectl peer add` here)",
                        ),
                    },
                )
            },
        },
    }
}

/// Where a bench request goes.
#[derive(Debug)]
pub enum BenchRoute {
    /// This is the answer.
    Answer(BenchRep),
    /// Report what this node can do.
    Info,
    /// Report why this node can do nothing.
    InfoOff { reason: String },
    Submit { submission: Submission },
    Status { job: Option<String> },
    Cancel { job: String },
    Artifacts { job: String },
    Chunk { job: String, name: String, offset: u64, len: u32 },
}

/// The reason, or what is said where there is none.
pub open spec fn or_else(reason: Option<&str>, fallback: Seq<char>) -> Seq<char> {
    match reason {
        Some(s) => s@,
        None => fallback,
    }
}

/// Where a bench request goes. The grant is looked at first. Without a
/// `bench.yaml` the report still answers, saying why the rest does not.
pub open spec fn routed(
    enabled: bool,
    pins: PinsRead,
    sender: NodeId,
    local: NodeId,
    disabled_reason: Option<&str>,
    req: BenchReq,
    r: BenchRoute,
) -> bool {
    if !bench_granted(pins, sender) {
        r matches BenchRoute::Answer(BenchRep::Refused { by, refusal }) && by == local
            && bench_denied(pins, sender, local, refusal)
    } else if !enabled {
        if req is NodeInfo {
            r matches BenchRoute::InfoOff { reason } && reason@ == or_else(
                disabled_reason,
                "bench is not configured on this node"@,
            )
        } else {
            r matches BenchRoute::Answer(BenchRep::Refused { by, refusal }) && by == local
                && not_configured(
                refusal,
                or_else(disabled_reason, "no bench.yaml"@),
                "write <config-dir>/bench.yaml on the node and restart its agent"@,
            )
        }
    } else {
        match req {
            BenchReq::NodeInfo => r == BenchRoute::Info,
            BenchReq::Submit { submission } => r == (BenchRoute::Submit { submission }),
            BenchReq::Status { job } => r == (BenchRoute::Status { job }),
            BenchReq::Cancel { job } => r == (BenchRoute::Cancel { job }),
            BenchReq::ArtifactList { job } => r == (BenchRoute::Artifacts { job }),
            BenchReq::ArtifactChunk { job, name, offset, len } => r == (BenchRoute::Chunk {
                job,
                name,
                offset,
                len,
            }),
            BenchReq::Attach { .. } => r matches BenchRoute::Answer(
                BenchRep::Refused { by, refusal },
            ) && by == local && not_configured(
                refusal,
                "attach is a stream, not a request"@,
                "internal: the serving loop routes Attach before this point"@,
            ),
        }
    }
}

/// Decide where a bench request other than an attach goes.
pub fn terminal_bench(
    enabled: bool,
    pins: &PinsRead,
    sender: NodeId,
    local: NodeId,
    disabled_reason: Option<&str>,
    req: BenchReq,
) -> (r: BenchRoute)
    ensures
        routed(enabled, *pins, sender, local, disabled_reason, req, r),
{
    match grant_of(pins, sender, local) {
        Ok(_) => {},
        Err(refusal) => return BenchRoute::Answer(BenchRep::Refused { by: local, refusal }),
    }
    if !enabled {
        return match req {
            BenchReq::NodeInfo => {
                let reason = match disabled_reason {
                    Some(s) => text::copy(s),
                    None => text::copy("bench is not configured on this node"),
                };
                BenchRoute::InfoOff { reason }
            },
            _ => {
                let what = match disabled_reason {
                    Some(s) => text::copy(s),
                    None => text::copy("no bench.yaml"),
                };
                BenchRoute::Answer(
                    BenchRep::Refused {
                        by: local,
                        refusal: BenchRefusal::NotConfigured {
                            what,
                            fix: text::copy(
                                "write <config-dir>/bench.yaml on the node and restart its agent",
                            ),
                        },
                    },
                )
            },
        };
    }
    match req {
        BenchReq::NodeInfo => BenchRoute::Info,
        BenchReq::Submit { submission } => BenchRoute::Submit { submission },
        BenchReq::Status { job } => BenchRoute::Status { job },
        BenchReq::Cancel { job } => BenchRoute::Cancel { job },
        BenchReq::ArtifactList { job } => BenchRoute::Artifacts { job },
        BenchReq::ArtifactChunk { job, name, offset, len } => BenchRoute::Chunk {
            job,
            name,
            offset,
            len,
        },
        BenchReq::Attach { .. } => BenchRoute::Answer(
            BenchRep::Refused {
                by: local,
                refusal: BenchRefusal::NotConfigured {
                    what: text::copy("attach is a stream, not a request"),
                    fix: text::copy("internal: the serving loop routes Attach before this point"),
                },
            },
        ),
    }
}

// ---------------------------------------------------------------------------
// The attached stream
// ---------------------------------------------------------------------------

/// A client that follows a job: which, and the number of the next event it is
/// owed.
#[derive(Debug)]
pub struct Attach {
    pub job: String,
    pub next: u64,
}

/// What is done with the events that were journaled since.
#[derive(Debug)]
pub enum AttachStep {
    /// Refuse, and end the stream.
    Refuse(BenchRefusal),
    /// End the stream without a word.
    Drop,
    /// Send these; where `done`, end the stream after the last.
    Send { events: Vec<BenchEvent>, done: bool },
}

/// What is done once nothing is left to send.
#[derive(Debug)]
pub enum IdleStep {
    /// Send this and end the stream.
    Farewell { heartbeat: BenchEvent },
    /// Wait for the journal; when nothing comes, send this. A frame from the
    /// client ends the stream.
    Wait { heartbeat: BenchEvent },
}

/// How many of the first `n` events are sent: up to the one that says that the
/// job is done.
pub open spec fn upto_done(events: Seq<BenchEvent>, n: int) -> int
    decreases events.len() - n,
{
    if n < 0 || n >= events.len() {
        events.len() as int
    } else if events[n].kind is Done {
        n + 1
    } else {
        upto_done(events, n + 1)
    }
}

/// What a pass does.
pub open spec fn passes(
    a: Attach,
    granted: Result<(), BenchRefusal>,
    replayed: Option<Vec<BenchEvent>>,
    b: Attach,
    step: AttachStep,
) -> bool {
    match granted {
        Err(refusal) => b == a && step == AttachStep::Refuse(refusal),
        Ok(_) => match replayed {
            None => b == a && step == AttachStep::Drop,
            Some(events) => {
                let n = upto_done(events@, 0);
                &&& step matches AttachStep::Send { events: sent, done }
                &&& sent@ == events@.subrange(0, n)
                &&& done == (n > 0 && events@[n - 1].kind is Done)
                &&& b == (Attach {
                    next: if n > 0 {
                        (events@[n - 1].seq + 1) as u64
                    } else {
                        a.next
                    },
                    ..a
                })
            },
        },
    }
}

/// Why a client may not follow a job, if it may not.
pub open spec fn attach_denied(
    granted: Result<(), BenchRefusal>,
    enabled: bool,
    known: bool,
    job: Seq<char>,
    r: BenchRefusal,
) -> bool {
    match granted {
        Err(refusal) => r == refusal,
        Ok(_) => if !enabled {
            not_configured(r, "no bench.yaml"@, "configure bench on the node"@)
        } else {
            !known && (r matches BenchRefusal::UnknownJob { job: j } && j@ == job)
        },
    }
}

impl Attach {
    /// Begin to follow a job from an event on. `known` says whether its record
    /// and its journal read.
    pub fn begin(
        granted: Result<(), BenchRefusal>,
        enabled: bool,
        known: bool,
        job: String,
        from_seq: u64,
    ) -> (r: Result<Attach, BenchRefusal>)
        ensures
            match r {
                Ok(a) => granted is Ok && enabled && known && a.job == job && a.next == (
                if from_seq > 1 {
                    from_seq
                } else {
                    1
                }),
                Err(e) => attach_denied(granted, enabled, known, job@, e),
            },
    {
        match granted {
            Err(refusal) => return Err(refusal),
            Ok(_) => {},
        }
        if !enabled {
            return Err(
                BenchRefusal::NotConfigured {
                    what: text::copy("no bench.yaml"),
                    fix: text::copy("configure bench on the node"),
                },
            );
        }
        if !known {
            return Err(BenchRefusal::UnknownJob { job });
        }
        let next: u64 = if from_seq > 1 {
            from_seq
        } else {
            1
        };
        Ok(Attach { job, next })
    }

    /// Look at the grant again, and at what was journaled since: a grant taken
    /// back cuts the stream at its next event. `replayed` is what the journal
    /// holds from the next event on, where it reads.
    pub fn pass(
        &mut self,
        granted: Result<(), BenchRefusal>,
        replayed: Option<Vec<BenchEvent>>,
    ) -> (step: AttachStep)
        requires
            replayed matches Some(events) ==> forall|i: int|
                0 <= i < events@.len() ==> (#[trigger] events@[i]).seq < u64::MAX,
        ensures
            passes(*old(self), granted, replayed, *final(self), step),
    {
        match granted {
            Err(refusal) => return AttachStep::Refuse(refusal),
            Ok(_) => {},
        }
        let events = match replayed {
            Some(e) => e,
            None => return AttachStep::Drop,
        };
        let ghost all = events@;
        let mut rest = events;
        let mut sent: Vec<BenchEvent> = Vec::new();
        let mut done = false;
        assert(all.subrange(0, 0) =~= sent@);
        assert(all.subrange(0, all.len() as int) =~= all);
        while rest.len() > 0 && !done
            invariant
                granted is Ok,
                replayed matches Some(e) && e@ == all,
                forall|i: int| 0 <= i < all.len() ==> (#[trigger] all[i]).seq < u64::MAX,
                sent@.len() <= all.len(),
                sent@ == all.subrange(0, sent@.len() as int),
                rest@ == all.subrange(sent@.len() as int, all.len() as int),
                self.job == old(self).job,
                self.next == (if sent@.len() > 0 {
                    (all[sent@.len() - 1].seq + 1) as u64
                } else {
                    old(self).next
                }),
                !done ==> upto_done(all, 0) == upto_done(all, sent@.len() as int),
                done ==> sent@.len() > 0 && upto_done(all, 0) == sent@.len()
                    && all[sent@.len() - 1].kind is Done,
                !done && sent@.len() > 0 ==> !(all[sent@.len() - 1].kind is Done),
            decreases rest.len(),
        {
            let ghost k = sent@.len() as int;
            let e = rest.remove(0);
            assert(e == all[k]);
            assert(rest@ =~= all.subrange(k + 1, all.len() as int));
            done = match &e.kind {
                EventKind::Done { .. } => true,
                _ => false,
            };
            self.next = e.seq + 1;
            sent.push(e);
            assert(sent@ =~= all.subrange(0, k + 1));
        }
        AttachStep::Send { events: sent, done }
    }

    /// Say that the job goes on, or that it is over.
    pub open spec fn is_heartbeat(&self, state: JobState, seq_high: u64, now_s: u64, e: BenchEvent) -> bool {
        &&& e.job == self.job
        &&& e.seq == seq_high
        &&& e.at_ms == now_s * 1000
        &&& e.kind == (EventKind::Heartbeat { state, seq_high })
    }

    /// Decide what to do once everything was sent. A job that is over and has
    /// nothing left is said farewell to: the client that asked for more than
    /// there is ends its stream deliberately rather than on a dropped
    /// connection.
    pub fn idle(&self, state: JobState, seq_high: u64, now_s: u64) -> (step: IdleStep)
        requires
            now_s * 1000 <= u64::MAX,
        ensures
            match step {
                IdleStep::Farewell { heartbeat } => state.terminal() && seq_high < self.next
                    && self.is_heartbeat(state, seq_high, now_s, heartbeat),
                IdleStep::Wait { heartbeat } => !(state.terminal() && seq_high < self.next)
                    && self.is_heartbeat(state, seq_high, now_s, heartbeat),
            },
    {
        let heartbeat = BenchEvent {
            job: self.job.clone(),
            seq: seq_high,
            at_ms: now_s * 1000,
            kind: EventKind::Heartbeat { state, seq_high },
        };
        if state.is_terminal() && seq_high < self.next {
            IdleStep::Farewell { heartbeat }
        } else {
            IdleStep::Wait { heartbeat }
        }
    }
}

// ---------------------------------------------------------------------------
// Laws
// ---------------------------------------------------------------------------

/// Law: a grant taken back ends the stream at its next pass, and nothing more
/// of the job is sent.
pub proof fn law_a_revoked_grant_cuts_the_stream(
    a: Attach,
    granted: Result<(), BenchRefusal>,
    replayed: Option<Vec<BenchEvent>>,
    b: Attach,
    step: AttachStep,
)
    requires
        passes(a, granted, replayed, b, step),
        granted is Err,
    ensures
        step is Refuse,
        b == a,
{
}

/// A pass over a job's journal: what is replayed is what the journal holds
/// from the next number on.
pub open spec fn passes_over(
    a: Attach,
    journal: Seq<BenchEvent>,
    replayed: Vec<BenchEvent>,
    b: Attach,
    step: AttachStep,
) -> bool {
    &&& consecutive(journal)
    &&& journal.len() < u64::MAX
    &&& replayed@ == numbered(written(journal), a.next, journal.len() as int)
    &&& passes(a, Ok::<(), BenchRefusal>(()), Some(replayed), b, step)
}

/// The events of a journal from number `from` on and before number `to`.
pub open spec fn between(journal: Seq<BenchEvent>, from: u64, to: u64) -> Seq<BenchEvent> {
    if from < to {
        journal.subrange(from - 1, to - 1)
    } else {
        Seq::empty()
    }
}

/// What a step sends.
pub open spec fn sent_by(step: AttachStep) -> Seq<BenchEvent> {
    match step {
        AttachStep::Send { events, .. } => events@,
        _ => Seq::empty(),
    }
}

/// What the first `n` steps send, joined.
pub open spec fn sent_by_all(steps: Seq<AttachStep>, n: int) -> Seq<BenchEvent>
    decreases n,
{
    if n <= 0 {
        Seq::empty()
    } else {
        sent_by_all(steps, n - 1) + sent_by(steps[n - 1])
    }
}

/// Law: a pass sends what the journal holds from the next number on, each
/// event once and in order, up to the end of the job; and the next pass asks
/// for exactly what comes after. Where the stream goes on, nothing that was
/// journaled is left.
pub proof fn law_a_pass_is_without_gaps(
    a: Attach,
    journal: Seq<BenchEvent>,
    replayed: Vec<BenchEvent>,
    b: Attach,
    step: AttachStep,
)
    requires
        a.next >= 1,
        passes_over(a, journal, replayed, b, step),
    ensures
        step is Send,
        b.next >= a.next,
        b.next > a.next ==> b.next <= journal.len() + 1,
        sent_by(step) == between(journal, a.next, b.next),
        sent_by(step).len() == b.next - a.next,
        !step->done ==> b.next > journal.len(),
{
    law_replay_resumes_from_any_number(journal, a.next);
    let all = replayed@;
    let n = upto_done(all, 0);
    lemma_upto(all, 0);
    if a.next <= journal.len() {
        assert(all =~= journal.subrange(a.next - 1, journal.len() as int));
        assert forall|k: int| 0 <= k < all.len() implies (#[trigger] all[k]).seq == a.next + k by {
            assert(all[k] == journal[a.next - 1 + k]);
        }
        assert(n > 0);
        assert(sent_by(step) =~= between(journal, a.next, b.next));
    } else {
        assert(all.len() == 0);
        assert(sent_by(step) =~= Seq::empty());
    }
}

/// Law: nothing is missed and nothing is delivered twice. Over any number of
/// passes of a stream, while the journal grows, what is sent is, joined, one
/// piece of the journal without a gap, from the number that the client asked
/// for on; and as long as the stream goes on the piece reaches to the end of
/// the journal.
pub proof fn law_a_stream_is_without_gaps(
    states: Seq<Attach>,
    journals: Seq<Seq<BenchEvent>>,
    replays: Seq<Vec<BenchEvent>>,
    steps: Seq<AttachStep>,
)
    requires
        steps.len() > 0,
        states.len() == steps.len() + 1,
        journals.len() == steps.len(),
        replays.len() == steps.len(),
        states[0].next >= 1,
        forall|i: int|
            0 <= i < steps.len() ==> passes_over(
                states[i],
                journals[i],
                replays[i],
                states[i + 1],
                #[trigger] steps[i],
            ),
        forall|i: int|
            0 < i < journals.len() ==> journals[i - 1].is_prefix_of(#[trigger] journals[i]),
    ensures
        states.last().next >= states[0].next,
        states.last().next > states[0].next ==> states.last().next <= journals.last().len() + 1,
        sent_by_all(steps, steps.len() as int) == between(
            journals.last(),
            states[0].next,
            states.last().next,
        ),
        !steps.last()->done ==> states.last().next > journals.last().len(),
{
    lemma_stream(states, journals, replays, steps, steps.len() as int);
}

proof fn lemma_stream(
    states: Seq<Attach>,
    journals: Seq<Seq<BenchEvent>>,
    replays: Seq<Vec<BenchEvent>>,
    steps: Seq<AttachStep>,
    n: int,
)
    requires
        0 < n <= steps.len(),
        states.len() == steps.len() + 1,
        journals.len() == steps.len(),
        replays.len() == steps.len(),
        states[0].next >= 1,
        forall|i: int|
            0 <= i < steps.len() ==> passes_over(
                states[i],
                journals[i],
                replays[i],
                states[i + 1],
                #[trigger] steps[i],
            ),
        forall|i: int|
            0 < i < journals.len() ==> journals[i - 1].is_prefix_of(#[trigger] journals[i]),
    ensures
        states[n].next >= states[0].next,
        states[n].next > states[0].next ==> states[n].next <= journals[n - 1].len() + 1,
        sent_by_all(steps, n) == between(journals[n - 1], states[0].next, states[n].next),
        !steps[n - 1]->done ==> states[n].next > journals[n - 1].len(),
    decreases n,
{
    let last = steps[n - 1];
    let j = journals[n - 1];
    assert(passes_over(states[n - 1], j, replays[n - 1], states[n - 1 + 1], last));
    let sent = sent_by(last);
    if n == 1 {
        law_a_pass_is_without_gaps(states[0], j, replays[0], states[1], last);
        assert(sent_by_all(steps, 0) =~= Seq::empty());
        assert(sent_by_all(steps, 1) =~= sent);
    } else {
        lemma_stream(states, journals, replays, steps, n - 1);
        law_a_pass_is_without_gaps(states[n - 1], j, replays[n - 1], states[n], last);
        let was = journals[n - 2];
        assert(journals[n - 1 - 1].is_prefix_of(journals[n - 1]));
        assert forall|k: int| 0 <= k < was.len() implies was[k] == j[k] by {
            assert(was == j.subrange(0, was.len() as int));
        }
        assert(between(was, states[0].next, states[n - 1].next) =~= between(
            j,
            states[0].next,
            states[n - 1].next,
        ));
        assert(sent_by_all(steps, n) =~= between(j, states[0].next, states[n].next));
    }
}

proof fn lemma_upto(events: Seq<BenchEvent>, n: int)
    requires
        0 <= n <= events.len(),
    ensures
        n <= upto_done(events, n) <= events.len(),
        upto_done(events, n) < events.len() ==> upto_done(events, n) > n && events[upto_done(
            events,
            n,
        ) - 1].kind is Done,
    decreases events.len() - n,
{
    if n < events.len() && !(events[n].kind is Done) {
        lemma_upto(events, n + 1);
    }
}

/// Law: the end of a job is the last thing sent. A pass that meets it sends
/// nothing after it and ends the stream.
pub proof fn law_done_is_sent_last(
    a: Attach,
    replayed: Vec<BenchEvent>,
    b: Attach,
    step: AttachStep,
    i: int,
)
    requires
        passes(a, Ok::<(), BenchRefusal>(()), Some(replayed), b, step),
        0 <= i < replayed@.len(),
        replayed@[i].kind is Done,
    ensures
        step matches AttachStep::Send { events, done } && done && events@.len() > 0 && events@.len()
            <= i + 1 && events@.last().kind is Done,
{
    lemma_upto(replayed@, 0);
    lemma_upto_bound(replayed@, 0, i);
}

proof fn lemma_upto_bound(events: Seq<BenchEvent>, n: int, i: int)
    requires
        0 <= n <= i < events.len(),
        events[i].kind is Done,
    ensures
        n < upto_done(events, n) <= i + 1,
        events[upto_done(events, n) - 1].kind is Done,
    decreases i - n,
{
    if !(events[n].kind is Done) {
        lemma_upto_bound(events, n + 1, i);
    }
}

/// Law: bench requests are served exactly to those who were granted them. A
/// request of anybody else is refused, whatever it is; and a request that is
/// granted reaches what it asks for, as it was asked, where bench is on.
pub proof fn law_a_granted_request_is_served(
    enabled: bool,
    pins: PinsRead,
    sender: NodeId,
    local: NodeId,
    disabled_reason: Option<&str>,
    req: BenchReq,
    r: BenchRoute,
)
    requires
        routed(enabled, pins, sender, local, disabled_reason, req, r),
    ensures
        ({
            let granted = pins is Ok && (lookup(read_pins(pins), sender) matches Some(pin)
                && pin.bench);
            &&& !granted ==> (r matches BenchRoute::Answer(BenchRep::Refused { by, .. }) && by
                == local)
            &&& granted && !enabled && !(req is NodeInfo) ==> r is Answer
            &&& granted && !enabled && req is NodeInfo ==> (r matches BenchRoute::InfoOff { reason }
                && (disabled_reason matches Some(s) ==> reason@ == s@))
            &&& granted && enabled ==> match req {
                BenchReq::NodeInfo => r is Info,
                BenchReq::Submit { submission } => r matches BenchRoute::Submit { submission: s }
                    && s == submission,
                BenchReq::Status { job } => r matches BenchRoute::Status { job: j } && j == job,
                BenchReq::Cancel { job } => r matches BenchRoute::Cancel { job: j } && j == job,
                BenchReq::ArtifactList { job } => r matches BenchRoute::Artifacts { job: j } && j
                    == job,
                BenchReq::ArtifactChunk { job, name, offset, len } => r matches BenchRoute::Chunk {
                    job: j,
                    name: n,
                    offset: o,
                    len: l,
                } && j == job && n == name && o == offset && l == len,
                BenchReq::Attach { .. } => r is Answer,
            }
        }),
{
}

/// Law: a machine that is paired and not granted is told the command that
/// grants it; one that is not paired is told that it is not.
pub proof fn law_a_refusal_says_how_to_be_granted(
    pins: PinsRead,
    sender: NodeId,
    local: NodeId,
    r: BenchRefusal,
)
    requires
        bench_denied(pins, sender, local, r),
        pins is Ok,
    ensures
        lookup(read_pins(pins), sender) is Some ==> (r matches BenchRefusal::NotGranted { command }
            && command@ == "metralectl peer grant-bench "@ + sender.brief() + " ON "@
            + local.brief()),
        lookup(read_pins(pins), sender) is None ==> (r matches BenchRefusal::NotConfigured {
            what,
            ..
        } && what@ == sender.brief() + " is not paired with this machine"@),
{
}

/// Law: a stream goes on where it stopped. What is sent is the beginning of
/// what was replayed, up to the end of the job where that is in it, and the
/// next pass starts behind the last that was sent.
pub proof fn law_a_pass_sends_up_to_the_end(
    a: Attach,
    events: Vec<BenchEvent>,
    b: Attach,
    step: AttachStep,
    i: int,
)
    requires
        passes(a, Ok(()), Some(events), b, step),
        forall|k: int| 0 <= k < events@.len() ==> (#[trigger] events@[k]).seq < u64::MAX,
    ensures
        (forall|k: int| 0 <= k < events@.len() ==> !((#[trigger] events@[k]).kind is Done)) ==> (
        step matches AttachStep::Send { events: sent, done } && sent@ == events@ && !done && b.next
            == (if events@.len() > 0 {
            events@.last().seq + 1
        } else {
            a.next as int
        })),
        0 <= i < events@.len() && events@[i].kind is Done && (forall|k: int|
            0 <= k < i ==> !((#[trigger] events@[k]).kind is Done)) ==> (step matches AttachStep::Send {
            events: sent,
            done,
        } && sent@ == events@.subrange(0, i + 1) && done && b.next == events@[i].seq + 1),
        b.job == a.job,
{
    let s = events@;
    if forall|k: int| 0 <= k < s.len() ==> !((#[trigger] s[k]).kind is Done) {
        lemma_never_done(s, 0);
        assert(s.subrange(0, s.len() as int) =~= s);
    }
    if 0 <= i < s.len() && s[i].kind is Done && (forall|k: int|
        0 <= k < i ==> !((#[trigger] s[k]).kind is Done)) {
        lemma_first_done(s, 0, i);
    }
}

proof fn lemma_never_done(s: Seq<BenchEvent>, from: int)
    requires
        0 <= from <= s.len(),
        forall|k: int| 0 <= k < s.len() ==> !((#[trigger] s[k]).kind is Done),
    ensures
        upto_done(s, from) == s.len(),
    decreases s.len() - from,
{
    if from < s.len() {
        lemma_never_done(s, from + 1);
    }
}

proof fn lemma_first_done(s: Seq<BenchEvent>, from: int, i: int)
    requires
        0 <= from <= i < s.len(),
        s[i].kind is Done,
        forall|k: int| 0 <= k < i ==> !((#[trigger] s[k]).kind is Done),
    ensures
        upto_done(s, from) == i + 1,
    decreases i - from,
{
    if from < i {
        lemma_first_done(s, from + 1, i);
    }
}

/// Law: a heartbeat says where the job is and how far its journal goes, and
/// takes no number of its own.
pub proof fn law_a_heartbeat_takes_no_number(
    a: Attach,
    state: JobState,
    seq_high: u64,
    now_s: u64,
    e: BenchEvent,
)
    requires
        a.is_heartbeat(state, seq_high, now_s, e),
    ensures
        e.job == a.job,
        e.seq == seq_high,
        e.at_ms == now_s * 1000,
        e.kind matches EventKind::Heartbeat { state: s, seq_high: h } && s == state && h
            == seq_high,
{
}

} // verus!
