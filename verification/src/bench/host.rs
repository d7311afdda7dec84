//! What the peer-serving path calls: submit, status, cancel, artifacts.
//!
//! Every method answers with a reply — including refusals, which are answers,
//! not errors. What the disk says is handed in; what is to be written is
//! handed out.
use crate::bench::config::{control, is_alnum, alnum, is_control, debug_quoted, quoted, BenchConfig};
use crate::bench::event::{
    ArtifactKind, ArtifactMeta, BenchEvent, EventKind, JobState, Outcome,
};
use crate::bench::job::{
    below, brief_sha, join_path, minted, opt_view, short_sha, JobRecord, JobSpec, JobStore, JobSummary,
};
use crate::bench::journal::{
    after_write, law_an_appended_event_is_replayed, numbered, whole,
};
use crate::bench::reply::{not_configured, BenchRefusal, BenchRep, MAX_CHUNK, MAX_NOTE};
use crate::digest::{base64_encode, base64_of};
use crate::keyed::keyed;
use crate::node::{NodeId, NodeMap};
use crate::order::{arrange, arranged, Order};
use crate::text;
use vstd::prelude::*;

verus! {

/// Submissions one peer may make per minute.
pub const SUBMITS_PER_MINUTE: usize = 30;

/// The order of the queue: oldest first, then by id.
pub struct QueueOrder;

impl Order<JobRecord> for QueueOrder {
    open spec fn lt(a: JobRecord, b: JobRecord) -> bool {
        a.created_at_s < b.created_at_s || (a.created_at_s == b.created_at_s && text::precedes(
            a.id@,
            b.id@,
        ))
    }

    fn less(a: &JobRecord, b: &JobRecord) -> (r: bool) {
        a.created_at_s < b.created_at_s || (a.created_at_s == b.created_at_s && text::before(
            &a.id,
            &b.id,
        ))
    }

    proof fn asymmetric(a: JobRecord, b: JobRecord) {
        text::lemma_precedes_total(a.id@, b.id@);
    }

    proof fn chained(a: JobRecord, b: JobRecord, c: JobRecord) {
        if a.created_at_s == b.created_at_s && b.created_at_s == c.created_at_s {
            text::lemma_not_precedes_transitive(a.id@, b.id@, c.id@);
        }
    }
}

/// The order of listings: newest first, then by id, the last first.
pub struct ListOrder;

impl Order<JobRecord> for ListOrder {
    open spec fn lt(a: JobRecord, b: JobRecord) -> bool {
        QueueOrder::lt(b, a)
    }

    fn less(a: &JobRecord, b: &JobRecord) -> (r: bool) {
        QueueOrder::less(b, a)
    }

    proof fn asymmetric(a: JobRecord, b: JobRecord) {
        QueueOrder::asymmetric(b, a);
    }

    proof fn chained(a: JobRecord, b: JobRecord, c: JobRecord) {
        QueueOrder::chained(c, b, a);
    }
}

/// Every job, newest first.
pub fn list(jobs: Vec<JobRecord>) -> (r: Vec<JobRecord>)
    ensures
        r@ == arranged::<JobRecord, ListOrder>(jobs@),
{
    arrange::<JobRecord, ListOrder>(jobs)
}

/// The jobs in a state, in the order given.
pub open spec fn in_state(jobs: Seq<JobRecord>, state: JobState) -> Seq<JobRecord>
    decreases jobs.len(),
{
    if jobs.len() == 0 {
        Seq::empty()
    } else if jobs.last().state == state {
        in_state(jobs.drop_last(), state).push(jobs.last())
    } else {
        in_state(jobs.drop_last(), state)
    }
}

/// The queue: the queued jobs, oldest first.
pub open spec fn queue_of(jobs: Seq<JobRecord>) -> Seq<JobRecord> {
    arranged::<JobRecord, QueueOrder>(in_state(jobs, JobState::Queued))
}

pub(crate) fn pick_state(jobs: Vec<JobRecord>, state: JobState) -> (r: Vec<JobRecord>)
    ensures
        r@ == in_state(jobs@, state),
{
    let ghost all = jobs@;
    let mut rest = jobs;
    let mut out: Vec<JobRecord> = Vec::new();
    let ghost mut n: int = 0;
    assert(all.subrange(0, 0) =~= Seq::empty());
    assert(rest@ =~= all.subrange(0, all.len() as int));
    while rest.len() > 0
        invariant
            0 <= n <= all.len(),
            rest@ == all.subrange(n, all.len() as int),
            out@ == in_state(all.subrange(0, n), state),
        decreases rest.len(),
    {
        let x = rest.remove(0);
        let ghost next = all.subrange(0, n + 1);
        assert(next.drop_last() =~= all.subrange(0, n));
        assert(next.last() == x);
        assert(rest@ =~= all.subrange(n + 1, all.len() as int));
        if x.state == state {
            out.push(x);
        }
        proof {
            n = n + 1;
        }
    }
    assert(all.subrange(0, n) =~= all);
    out
}

/// Queued jobs, oldest first.
pub fn queued(jobs: Vec<JobRecord>) -> (r: Vec<JobRecord>)
    ensures
        r@ == queue_of(jobs@),
{
    let waiting = pick_state(jobs, JobState::Queued);
    arrange::<JobRecord, QueueOrder>(waiting)
}

/// The job that runs next: the head of the queue.
pub fn next_job(jobs: Vec<JobRecord>) -> (r: Option<JobRecord>)
    ensures
        match r {
            Some(j) => queue_of(jobs@).len() > 0 && j == queue_of(jobs@)[0],
            None => queue_of(jobs@).len() == 0,
        },
{
    let mut q = queued(jobs);
    if q.len() == 0 {
        None
    } else {
        Some(q.remove(0))
    }
}

/// Where in the queue a job stands, counted from 1; 0 where it is not in it.
pub open spec fn position_in(queue: Seq<JobRecord>, id: Seq<char>, from: int) -> int
    decreases queue.len() - from,
{
    if from < 0 || from >= queue.len() {
        0
    } else if queue[from].id@ == id {
        from + 1
    } else {
        position_in(queue, id, from + 1)
    }
}

fn position_of(queue: &Vec<JobRecord>, id: &str) -> (p: u32)
    ensures
        p == position_in(queue@, id@, 0) as u32,
{
    let mut i: usize = 0;
    while i < queue.len()
        invariant
            i <= queue.len(),
            position_in(queue@, id@, 0) == position_in(queue@, id@, i as int),
        decreases queue.len() - i,
    {
        if text::same(&queue[i].id, id) {
            let place: u64 = i as u64 + 1;
            return #[verifier::truncate] (place as u32);
        }
        i += 1;
    }
    0
}

/// A submission, as it came in.
#[derive(Debug, Clone, PartialEq, Eq)]
pub struct Submission {
    pub job_key: String,
    pub sha: String,
    pub gate: String,
    pub params: Vec<(String, String)>,
    pub checkpoint: Option<String>,
    pub hardware: Option<String>,
    pub max_run_s: Option<u32>,
    pub note: Option<String>,
}

impl Submission {
    /// Every parameter is named once, in ascending order.
    pub open spec fn keyed(self) -> bool {
        keyed(self.params@)
    }
}

/// What the node knows when a submission comes in: whether the parameters
/// are well formed, the job the key already names, every job, the free disk.
#[derive(Debug)]
pub struct SubmitFacts {
    pub params: Result<(), String>,
    pub existing: Result<Option<JobRecord>, String>,
    pub jobs: Result<Vec<JobRecord>, String>,
    pub disk_free: Option<u64>,
    pub now_s: u64,
    pub now_ms: u64,
}

/// What a submission leads to.
#[derive(Debug)]
pub enum SubmitStep {
    /// The answer.
    Answer(BenchRep),
    /// A job to be created: its record, its place in the queue, and the event
    /// that opens its journal.
    Create { record: JobRecord, position: u32, opening: EventKind },
}

/// What a cancellation leads to.
#[derive(Debug)]
pub enum CancelStep {
    /// The answer; nothing changes, or the worker has been told.
    Answer(BenchRep),
    /// A queued job that ends here: the event that closes its journal, and its
    /// record, to be saved with that event's number.
    Close { record: JobRecord, closing: EventKind, reply: BenchRep },
}

/// The bench surface of one agent.
#[derive(Debug)]
pub struct BenchHost {
    pub cfg: BenchConfig,
    pub store: JobStore,
    pub local: NodeId,
    /// The job being run.
    pub running: Option<String>,
    /// The jobs being run, and whether each has been asked to end.
    pub cancels: Vec<(String, bool)>,
    /// When each peer's submissions that still count came in.
    pub submits: NodeMap<Vec<u64>>,
}

/// Submissions old enough to no longer count are forgotten.
pub open spec fn recent(times: Seq<u64>, now_ms: u64) -> Seq<u64>
    decreases times.len(),
{
    if times.len() > 0 && now_ms - times[0] > 60_000 {
        recent(times.drop_first(), now_ms)
    } else {
        times
    }
}

/// The characters of a note that are kept: no control characters.
pub open spec fn printable(s: Seq<char>) -> Seq<char>
    decreases s.len(),
{
    if s.len() == 0 {
        s
    } else if is_control(s.last()) {
        printable(s.drop_last())
    } else {
        printable(s.drop_last()).push(s.last())
    }
}

/// A note as it is kept: no control characters, and not too long.
pub open spec fn kept_note(s: Seq<char>) -> Seq<char> {
    let p = printable(s);
    if p.len() <= MAX_NOTE {
        p
    } else {
        p.subrange(0, MAX_NOTE as int)
    }
}

/// A checkpoint name: letters, digits and `._/-`, at most 128 bytes.
pub open spec fn checkpoint_ok(c: Seq<char>) -> bool {
    &&& c.len() > 0
    &&& vstd::utf8::encode_utf8(c).len() <= 128
    &&& forall|i: int|
        0 <= i < c.len() ==> is_alnum(#[trigger] c[i]) || c[i] == '.' || c[i] == '_' || c[i] == '/'
            || c[i] == '-'
}

/// The run ceiling of a submission: its own, within the node's.
pub open spec fn ceiling(asked: Option<u32>, node: u32) -> u32 {
    match asked {
        Some(m) => if m < node {
            m
        } else {
            node
        },
        None => node,
    }
}

/// The submission as a job would hold it.
pub open spec fn spec_of(cfg: BenchConfig, s: Submission) -> JobSpec {
    JobSpec {
        sha: s.sha,
        gate: s.gate,
        params: s.params,
        checkpoint: s.checkpoint,
        max_run_s: ceiling(s.max_run_s, cfg.max_run_s),
    }
}

/// How many jobs are queued; unknown counts as full.
pub open spec fn depth_of(jobs: Result<Vec<JobRecord>, String>) -> u32 {
    match jobs {
        Ok(j) => queue_of(j@).len() as u32,
        Err(_) => u32::MAX,
    }
}

/// Where in the queue a job stands, by what is known of the queue.
pub open spec fn place_of(jobs: Result<Vec<JobRecord>, String>, id: Seq<char>) -> u32 {
    match jobs {
        Ok(j) => position_in(queue_of(j@), id, 0) as u32,
        Err(_) => 0,
    }
}

/// The record of a newly accepted job.
pub open spec fn fresh_record(
    r: JobRecord,
    cfg: BenchConfig,
    sender: NodeId,
    s: Submission,
    now_s: u64,
) -> bool {
    &&& r.id@ == minted(now_s, s.job_key@, sender)
    &&& r.key == s.job_key
    &&& r.sender == sender
    &&& r.spec == spec_of(cfg, s)
    &&& opt_view(r.note) == (match s.note {
        Some(n) => Some(kept_note(n@)),
        None => None,
    })
    &&& r.state == JobState::Queued
    &&& r.created_at_s == now_s
    &&& r.updated_at_s == now_s
    &&& r.child_pid is None
    &&& r.child_start_ticks is None
    &&& r.binary_sha256 is None
    &&& r.records_before@.len() == 0
    &&& r.seq_high == 0
    &&& r.outcome is None
}

/// What a submission that is not rate-limited leads to.
pub open spec fn admission(
    cfg: BenchConfig,
    local: NodeId,
    sender: NodeId,
    s: Submission,
    facts: SubmitFacts,
    step: SubmitStep,
) -> bool {
    let depth = depth_of(facts.jobs);
    if facts.params is Err {
        &&& step matches SubmitStep::Answer(BenchRep::Refused { by, refusal })
        &&& by == local
        &&& refusal matches BenchRefusal::BadParams { errors }
        &&& text::views(errors@) == seq![facts.params->Err_0@]
    } else if s.checkpoint is Some && !checkpoint_ok(s.checkpoint.unwrap()@) {
        &&& step matches SubmitStep::Answer(BenchRep::Refused { by, refusal })
        &&& by == local
        &&& refusal matches BenchRefusal::BadParams { errors }
        &&& text::views(errors@) == seq![
            "checkpoint "@ + debug_quoted(s.checkpoint.unwrap()@) + " is not a checkpoint name"@,
        ]
    } else if s.hardware is Some && s.hardware.unwrap()@ != cfg.hardware@ {
        &&& step matches SubmitStep::Answer(BenchRep::Refused { by, refusal })
        &&& by == local
        &&& not_configured(
            refusal,
            "this node's box class is "@ + cfg.hardware@ + ", not "@ + s.hardware.unwrap()@,
            "submit for the class the node is, or pick another node"@,
        )
    } else if facts.existing is Err {
        &&& step matches SubmitStep::Answer(BenchRep::Refused { by, refusal })
        &&& by == local
        &&& not_configured(
            refusal,
            "the job store is unreadable: "@ + facts.existing->Err_0@,
            "check the cache directory's permissions"@,
        )
    } else if facts.existing->Ok_0 is Some {
        let e = facts.existing->Ok_0.unwrap();
        if e.spec.agrees(spec_of(cfg, s)) {
            step == SubmitStep::Answer(
                BenchRep::Accepted {
                    job: e.id,
                    existing: true,
                    state: e.state,
                    position: place_of(facts.jobs, e.id@),
                },
            )
        } else {
            step == SubmitStep::Answer(
                BenchRep::Refused { by: local, refusal: BenchRefusal::KeyConflict { job: e.id } },
            )
        }
    } else if depth >= cfg.queue_depth {
        step == SubmitStep::Answer(
            BenchRep::Refused {
                by: local,
                refusal: BenchRefusal::QueueFull { depth, retry_after_s: 300 },
            },
        )
    } else if facts.disk_free is Some && facts.disk_free.unwrap() < cfg.min_free_disk_bytes {
        step == SubmitStep::Answer(
            BenchRep::Refused {
                by: local,
                refusal: BenchRefusal::DiskLow {
                    free_bytes: facts.disk_free.unwrap(),
                    required_bytes: cfg.min_free_disk_bytes,
                },
            },
        )
    } else {
        &&& step matches SubmitStep::Create { record, position, opening }
        &&& fresh_record(record, cfg, sender, s, facts.now_s)
        &&& position == depth + 1
        &&& opening == (EventKind::Queued { position })
    }
}

fn clean_note(s: &str) -> (r: String)
    ensures
        r@ == kept_note(s@),
{
    let v = text::to_chars(s);
    let mut out: Vec<char> = Vec::new();
    let mut i: usize = 0;
    assert(v@.subrange(0, 0) =~= Seq::empty());
    while i < v.len()
        invariant
            i <= v.len(),
            out@ == printable(v@.subrange(0, i as int)),
        decreases v.len() - i,
    {
        let ghost next = v@.subrange(0, i + 1);
        assert(next.drop_last() =~= v@.subrange(0, i as int));
        assert(next.last() == v@[i as int]);
        if !control(v[i]) {
            out.push(v[i]);
        }
        i += 1;
    }
    assert(v@.subrange(0, v@.len() as int) =~= v@);
    let end: usize = if out.len() <= MAX_NOTE {
        out.len()
    } else {
        MAX_NOTE
    };
    assert(out@.subrange(0, out@.len() as int) =~= out@);
    text::from_range(&out, 0, end)
}

fn checkpoint_named(c: &str) -> (r: bool)
    ensures
        r == checkpoint_ok(c@),
{
    let v = text::to_chars(c);
    let mut i: usize = 0;
    while i < v.len()
        invariant
            v@ == c@,
            i <= v.len(),
            forall|k: int|
                0 <= k < i ==> is_alnum(#[trigger] c@[k]) || c@[k] == '.' || c@[k] == '_' || c@[k]
                    == '/' || c@[k] == '-',
        decreases v.len() - i,
    {
        let ch = v[i];
        if !(alnum(ch) || ch == '.' || ch == '_' || ch == '/' || ch == '-') {
            assert(ch == c@[i as int]);
            return false;
        }
        i += 1;
    }
    v.len() > 0 && c.as_bytes().len() <= 128
}

/// The flag of a job in a table of cancel flags.
pub open spec fn flag_of(flags: Seq<(String, bool)>, job: Seq<char>, from: int) -> Option<bool>
    decreases flags.len() - from,
{
    if from < 0 || from >= flags.len() {
        None
    } else if flags[from].0@ == job {
        Some(flags[from].1)
    } else {
        flag_of(flags, job, from + 1)
    }
}

/// The summaries of the first `n` jobs.
pub open spec fn summaries(jobs: Seq<JobRecord>, n: int) -> Seq<JobSummary> {
    Seq::new(
        n as nat,
        |i: int|
            JobSummary {
                job: jobs[i].id,
                job_key: jobs[i].key,
                sha: jobs[i].spec.sha,
                gate: jobs[i].spec.gate,
                state: jobs[i].state,
                created_at_s: jobs[i].created_at_s,
                updated_at_s: jobs[i].updated_at_s,
                seq_high: jobs[i].seq_high,
                outcome: jobs[i].outcome,
            },
    )
}

/// The artifacts that a journal names, in order.
pub open spec fn journaled(events: Seq<BenchEvent>) -> Seq<ArtifactMeta>
    decreases events.len(),
{
    if events.len() == 0 {
        Seq::empty()
    } else {
        match events.last().kind {
            EventKind::Artifact { meta } => journaled(events.drop_last()).push(meta),
            _ => journaled(events.drop_last()),
        }
    }
}

/// A file name of a job's own manifest, never a path.
pub open spec fn bare_name(name: Seq<char>) -> bool {
    !name.contains('/') && !name.contains('\\') && (text::begins(name, "."@) ==> name == ".sig"@)
}

/// Some artifact has this name.
pub open spec fn names(items: Seq<ArtifactMeta>, name: Seq<char>) -> bool {
    exists|i: int| 0 <= i < items.len() && (#[trigger] items[i]).name@ == name
}

impl BenchHost {
    /// When a peer's submissions that still count came in.
    pub open spec fn submitted(self, peer: NodeId) -> Seq<u64> {
        match self.submits.at(peer) {
            Some(v) => v@,
            None => Seq::empty(),
        }
    }

    /// The job being run, if any.
    pub open spec fn busy_with(self) -> Option<Seq<char>> {
        opt_view(self.running)
    }

    /// Whether a job being run has been asked to end.
    pub open spec fn cancel_flag(self, job: Seq<char>) -> Option<bool> {
        flag_of(self.cancels@, job, 0)
    }

    /// Everything but the submissions is as it was.
    pub open spec fn same_but_submits(self, other: BenchHost) -> bool {
        &&& self.cfg == other.cfg
        &&& self.store == other.store
        &&& self.local == other.local
        &&& self.busy_with() == other.busy_with()
        &&& forall|job: Seq<char>| self.cancel_flag(job) == #[trigger] other.cancel_flag(job)
    }

    /// A bench surface with nothing going on.
    pub fn new(cfg: BenchConfig, local: NodeId) -> (h: BenchHost)
        ensures
            h.cfg == cfg,
            h.local == local,
            h.store.base() == below(cfg.cache_dir@, "jobs"@),
            h.busy_with() is None,
            forall|job: Seq<char>| (#[trigger] h.cancel_flag(job)) is None,
            forall|peer: NodeId| (#[trigger] h.submitted(peer)).len() == 0,
    {
        let store = JobStore::new(cfg.jobs_dir());
        BenchHost {
            cfg,
            store,
            local,
            running: None,
            cancels: Vec::new(),
            submits: NodeMap::new(),
        }
    }

    fn refuse(&self, refusal: BenchRefusal) -> (r: BenchRep)
        ensures
            r == (BenchRep::Refused { by: self.local, refusal }),
    {
        BenchRep::Refused { by: self.local, refusal }
    }

    /// The job being run, if any.
    pub fn running(&self) -> (r: Option<String>)
        ensures
            opt_view(r) == self.busy_with(),
    {
        match &self.running {
            Some(id) => Some(id.clone()),
            None => None,
        }
    }

    /// Notes the job being run.
    pub fn set_running(&mut self, job: Option<String>)
        ensures
            final(self).busy_with() == opt_view(job),
            final(self).cfg == old(self).cfg,
            final(self).store == old(self).store,
            final(self).local == old(self).local,
            forall|job: Seq<char>|
                final(self).cancel_flag(job) == #[trigger] old(self).cancel_flag(job),
            forall|peer: NodeId|
                final(self).submitted(peer) == #[trigger] old(self).submitted(peer),
    {
        self.running = job;
    }

    /// Counts a submission against its sender's allowance; answers how long
    /// to wait where it is spent.
    pub fn rate_limited(&mut self, sender: NodeId, now_ms: u64) -> (r: Option<u32>)
        ensures
            ({
                let kept = recent(old(self).submitted(sender), now_ms);
                &&& r == (if kept.len() >= SUBMITS_PER_MINUTE {
                    Some(60u32)
                } else {
                    None
                })
                &&& final(self).submitted(sender) == (if r is Some {
                    kept
                } else {
                    kept.push(now_ms)
                })
            }),
            forall|peer: NodeId|
                peer != sender ==> final(self).submitted(peer) == #[trigger] old(self).submitted(
                    peer,
                ),
            final(self).same_but_submits(*old(self)),
    {
        let mut times: Vec<u64> = Vec::new();
        if let Some(v) = self.submits.get(sender) {
            let mut i: usize = 0;
            let ghost all = v@;
            assert(all.subrange(0, all.len() as int) =~= all);
            while i < v.len() && now_ms > v[i] && now_ms - v[i] > 60_000
                invariant
                    i <= v.len(),
                    v@ == all,
                    recent(all, now_ms) == recent(all.subrange(i as int, all.len() as int), now_ms),
                decreases v.len() - i,
            {
                assert(all.subrange(i as int, all.len() as int).drop_first() =~= all.subrange(
                    i + 1,
                    all.len() as int,
                ));
                i += 1;
            }
            let start: usize = i;
            assert(all.subrange(start as int, start as int) =~= times@);
            while i < v.len()
                invariant
                    v@ == all,
                    start <= i <= v.len(),
                    times@ == all.subrange(start as int, i as int),
                decreases v.len() - i,
            {
                times.push(v[i]);
                i += 1;
                assert(times@ =~= all.subrange(start as int, i as int));
            }
            assert(times@ == recent(all, now_ms));
        }
        assert(times@ =~= recent(self.submitted(sender), now_ms));
        let full = times.len() >= SUBMITS_PER_MINUTE;
        if !full {
            times.push(now_ms);
        }
        self.submits.insert(sender, times);
        assert forall|peer: NodeId| peer != sender implies self.submitted(peer) == #[trigger] old(
            self,
        ).submitted(peer) by {
            assert(self.submits.at(peer) == old(self).submits.at(peer));
        }
        if full {
            Some(60)
        } else {
            None
        }
    }

    /// What taking a submission comes to. All that changes is what counts
    /// against the sender.
    pub open spec fn takes(
        self,
        sender: NodeId,
        s: Submission,
        facts: SubmitFacts,
        next: BenchHost,
        step: SubmitStep,
    ) -> bool {
        let kept = recent(self.submitted(sender), facts.now_ms);
        &&& if kept.len() >= SUBMITS_PER_MINUTE {
            &&& step == SubmitStep::Answer(
                BenchRep::Refused {
                    by: self.local,
                    refusal: BenchRefusal::RateLimited { retry_after_s: 60 },
                },
            )
            &&& next.submitted(sender) == kept
        } else {
            &&& admission(self.cfg, self.local, sender, s, facts, step)
            &&& next.submitted(sender) == kept.push(facts.now_ms)
        }
        &&& forall|peer: NodeId|
            peer != sender ==> next.submitted(peer) == #[trigger] self.submitted(peer)
        &&& next.same_but_submits(self)
    }

    /// Takes a submission: an answer, or a job to be created. Nothing is
    /// accepted that the disk has no room to journal; memory and the
    /// accelerator are checked right before a child starts, because they
    /// change.
    pub fn submit(&mut self, sender: NodeId, s: Submission, facts: SubmitFacts) -> (step: SubmitStep)
        ensures
            old(self).takes(sender, s, facts, *final(self), step),
    {
        if let Some(retry) = self.rate_limited(sender, facts.now_ms) {
            return SubmitStep::Answer(
                self.refuse(BenchRefusal::RateLimited { retry_after_s: retry }),
            );
        }
        self.consider(sender, s, facts)
    }

    fn consider(&self, sender: NodeId, s: Submission, facts: SubmitFacts) -> (step: SubmitStep)
        ensures
            admission(self.cfg, self.local, sender, s, facts, step),
    {
        if let Err(e) = facts.params {
            let mut errors: Vec<String> = Vec::new();
            errors.push(e);
            assert(text::views(errors@) =~= seq![e@]);
            return SubmitStep::Answer(self.refuse(BenchRefusal::BadParams { errors }));
        }
        if let Some(c) = &s.checkpoint {
            if !checkpoint_named(c) {
                let q = quoted(c);
                let why = text::cat3("checkpoint ", &q, " is not a checkpoint name");
                let mut errors: Vec<String> = Vec::new();
                errors.push(why);
                assert(text::views(errors@) =~= seq![why@]);
                return SubmitStep::Answer(self.refuse(BenchRefusal::BadParams { errors }));
            }
        }
        if let Some(h) = &s.hardware {
            if !text::same(h, &self.cfg.hardware) {
                let mut what = text::cat2("this node's box class is ", &self.cfg.hardware);
                what.append(", not ");
                what.append(h);
                let fix = text::copy("submit for the class the node is, or pick another node");
                return SubmitStep::Answer(self.refuse(BenchRefusal::NotConfigured { what, fix }));
            }
        }
        let note = match &s.note {
            Some(n) => Some(clean_note(n)),
            None => None,
        };
        let max_run_s: u32 = match s.max_run_s {
            Some(m) => if m < self.cfg.max_run_s {
                m
            } else {
                self.cfg.max_run_s
            },
            None => self.cfg.max_run_s,
        };
        let spec = JobSpec {
            sha: s.sha,
            gate: s.gate,
            params: s.params,
            checkpoint: s.checkpoint,
            max_run_s,
        };
        match facts.existing {
            Err(e) => {
                let what = text::cat2("the job store is unreadable: ", &e);
                let fix = text::copy("check the cache directory's permissions");
                return SubmitStep::Answer(self.refuse(BenchRefusal::NotConfigured { what, fix }));
            },
            Ok(Some(existing)) => {
                if existing.spec.same_as(&spec) {
                    let position = match facts.jobs {
                        Ok(jobs) => {
                            let q = queued(jobs);
                            position_of(&q, &existing.id)
                        },
                        Err(_) => 0,
                    };
                    return SubmitStep::Answer(
                        BenchRep::Accepted {
                            job: existing.id,
                            existing: true,
                            state: existing.state,
                            position,
                        },
                    );
                }
                return SubmitStep::Answer(
                    self.refuse(BenchRefusal::KeyConflict { job: existing.id }),
                );
            },
            Ok(None) => {},
        }
        let depth: u32 = match facts.jobs {
            Ok(jobs) => {
                let q = queued(jobs);
                #[verifier::truncate]
                (q.len() as u32)
            },
            Err(_) => u32::MAX,
        };
        if depth >= self.cfg.queue_depth {
            return SubmitStep::Answer(
                self.refuse(BenchRefusal::QueueFull { depth, retry_after_s: 300 }),
            );
        }
        if let Some(free) = facts.disk_free {
            if free < self.cfg.min_free_disk_bytes {
                return SubmitStep::Answer(
                    self.refuse(
                        BenchRefusal::DiskLow {
                            free_bytes: free,
                            required_bytes: self.cfg.min_free_disk_bytes,
                        },
                    ),
                );
            }
        }
        let id = JobStore::mint_id(facts.now_s, &s.job_key, sender);
        let record = JobRecord {
            id,
            key: s.job_key,
            sender,
            spec,
            note,
            state: JobState::Queued,
            created_at_s: facts.now_s,
            updated_at_s: facts.now_s,
            child_pid: None,
            child_start_ticks: None,
            binary_sha256: None,
            records_before: Vec::new(),
            seq_high: 0,
            outcome: None,
        };
        let position: u32 = depth + 1;
        SubmitStep::Create { record, position, opening: EventKind::Queued { position } }
    }

    /// The answer once a job's creation has been tried.
    pub fn created(&self, id: String, position: u32, outcome: Result<(), String>) -> (r: BenchRep)
        ensures
            match outcome {
                Ok(_) => r == (BenchRep::Accepted {
                    job: id,
                    existing: false,
                    state: JobState::Queued,
                    position,
                }),
                Err(e) => {
                    &&& r matches BenchRep::Refused { by, refusal }
                    &&& by == self.local
                    &&& not_configured(
                        refusal,
                        "cannot create the job: "@ + e@,
                        "check the cache directory"@,
                    )
                },
            },
    {
        match outcome {
            Ok(_) => BenchRep::Accepted {
                job: id,
                existing: false,
                state: JobState::Queued,
                position,
            },
            Err(e) => {
                let what = text::cat2("cannot create the job: ", &e);
                let fix = text::copy("check the cache directory");
                self.refuse(BenchRefusal::NotConfigured { what, fix })
            },
        }
    }

    /// What is known of one job: its summary, or that there is no such job.
    pub fn status_of(&self, job: String, loaded: Option<JobRecord>) -> (r: BenchRep)
        ensures
            match loaded {
                Some(record) => r matches BenchRep::Status { jobs } && jobs@ == summaries(
                    seq![record],
                    1,
                ),
                None => r == (BenchRep::Refused {
                    by: self.local,
                    refusal: BenchRefusal::UnknownJob { job },
                }),
            },
    {
        match loaded {
            Some(record) => {
                let mut jobs: Vec<JobSummary> = Vec::new();
                jobs.push(record.summary());
                assert(jobs@ =~= summaries(seq![record], 1));
                BenchRep::Status { jobs }
            },
            None => self.refuse(BenchRefusal::UnknownJob { job }),
        }
    }

    /// The newest fifty jobs, of a listing that is newest first.
    pub fn status(&self, listing: &Vec<JobRecord>) -> (r: BenchRep)
        ensures
            r matches BenchRep::Status { jobs } && jobs@ == summaries(
                listing@,
                if listing@.len() < 50 {
                    listing@.len() as int
                } else {
                    50
                },
            ),
    {
        let mut jobs: Vec<JobSummary> = Vec::new();
        let mut i: usize = 0;
        while i < listing.len() && i < 50
            invariant
                i <= listing.len(),
                i <= 50,
                jobs@ == summaries(listing@, i as int),
            decreases listing.len() - i,
        {
            jobs.push(listing[i].summary());
            i += 1;
            assert(jobs@ =~= summaries(listing@, i as int));
        }
        BenchRep::Status { jobs }
    }

    /// Registers a job that is about to run, so that a cancellation reaches
    /// it.
    pub fn register_cancel(&mut self, job: &str)
        ensures
            forall|k: Seq<char>| #[trigger]
                final(self).cancel_flag(k) == (if k == job@ {
                    Some(false)
                } else {
                    old(self).cancel_flag(k)
                }),
            final(self).cfg == old(self).cfg,
            final(self).store == old(self).store,
            final(self).local == old(self).local,
            final(self).busy_with() == old(self).busy_with(),
            forall|peer: NodeId|
                final(self).submitted(peer) == #[trigger] old(self).submitted(peer),
    {
        let mut flags: Vec<(String, bool)> = Vec::new();
        flags.push((text::copy(job), false));
        append_others(&mut flags, &self.cancels, job);
        proof {
            lemma_others(old(self).cancels@, job@, old(self).cancels@.len() as int);
            lemma_registered(flags@, old(self).cancels@, job@);
        }
        self.cancels = flags;
    }

    /// Forgets a job that has run.
    pub fn forget_cancel(&mut self, job: &str)
        ensures
            forall|k: Seq<char>| #[trigger]
                final(self).cancel_flag(k) == (if k == job@ {
                    None
                } else {
                    old(self).cancel_flag(k)
                }),
            final(self).cfg == old(self).cfg,
            final(self).store == old(self).store,
            final(self).local == old(self).local,
            final(self).busy_with() == old(self).busy_with(),
            forall|peer: NodeId|
                final(self).submitted(peer) == #[trigger] old(self).submitted(peer),
    {
        let mut flags: Vec<(String, bool)> = Vec::new();
        append_others(&mut flags, &self.cancels, job);
        proof {
            assert(flags@ =~= others(old(self).cancels@, job@, old(self).cancels@.len() as int));
            lemma_others(old(self).cancels@, job@, old(self).cancels@.len() as int);
            assert(old(self).cancels@.subrange(0, old(self).cancels@.len() as int)
                =~= old(self).cancels@);
        }
        self.cancels = flags;
    }

    /// Whether a job being run has been asked to end.
    pub fn cancelled(&self, job: &str) -> (r: bool)
        ensures
            r == (self.cancel_flag(job@) == Some(true)),
    {
        let mut i: usize = 0;
        while i < self.cancels.len()
            invariant
                i <= self.cancels.len(),
                flag_of(self.cancels@, job@, 0) == flag_of(self.cancels@, job@, i as int),
            decreases self.cancels.len() - i,
        {
            if text::same(&self.cancels[i].0, job) {
                return self.cancels[i].1;
            }
            i += 1;
        }
        false
    }
}

impl BenchHost {
    /// What asking for a job to end comes to. Besides the answer, all that
    /// may change is the flag of a job that is being run.
    pub open spec fn told_to_end(
        self,
        job: String,
        loaded: Option<JobRecord>,
        now_s: u64,
        next: BenchHost,
        step: CancelStep,
    ) -> bool {
        let signalled = loaded is Some && !loaded.unwrap().state.terminal()
            && loaded.unwrap().state != JobState::Queued;
        &&& match loaded {
            None => step == CancelStep::Answer(
                BenchRep::Refused { by: self.local, refusal: BenchRefusal::UnknownJob { job } },
            ),
            Some(record) => if record.state == JobState::Queued {
                step == (CancelStep::Close {
                    record: JobRecord {
                        outcome: Some(Outcome::Cancelled { by: self.local }),
                        state: JobState::Done,
                        updated_at_s: now_s,
                        ..record
                    },
                    closing: EventKind::Done { outcome: Outcome::Cancelled { by: self.local } },
                    reply: BenchRep::Cancelled { job, state: JobState::Done },
                })
            } else {
                step == CancelStep::Answer(BenchRep::Cancelled { job, state: record.state })
            },
        }
        &&& forall|k: Seq<char>| #[trigger]
            next.cancel_flag(k) == (if signalled && k == job@ && self.cancel_flag(k) is Some {
                Some(true)
            } else {
                self.cancel_flag(k)
            })
        &&& next.cfg == self.cfg
        &&& next.store == self.store
        &&& next.local == self.local
        &&& next.busy_with() == self.busy_with()
        &&& forall|peer: NodeId| next.submitted(peer) == #[trigger] self.submitted(peer)
    }

    /// Asks for a job to end. A finished job answers with its state; a queued
    /// one ends here; a running one is signalled to its worker.
    pub fn cancel(&mut self, job: String, loaded: Option<JobRecord>, now_s: u64) -> (step:
        CancelStep)
        ensures
            old(self).told_to_end(job, loaded, now_s, *final(self), step),
    {
        match loaded {
            None => CancelStep::Answer(self.refuse(BenchRefusal::UnknownJob { job })),
            Some(record) => {
                let mut record = record;
                if record.state.is_terminal() {
                    return CancelStep::Answer(BenchRep::Cancelled { job, state: record.state });
                }
                if record.state == JobState::Queued {
                    record.outcome = Some(Outcome::Cancelled { by: self.local });
                    record.state = JobState::Done;
                    record.updated_at_s = now_s;
                    let reply = BenchRep::Cancelled { job, state: JobState::Done };
                    let closing = EventKind::Done {
                        outcome: Outcome::Cancelled { by: self.local },
                    };
                    return CancelStep::Close { record, closing, reply };
                }
                let ghost before = self.cancels@;
                let mut i: usize = 0;
                #[verifier::loop_isolation(false)]
                while i < self.cancels.len()
                    invariant
                        i <= self.cancels.len(),
                        self.cancels@ == before,
                        before == old(self).cancels@,
                        *self == *old(self),
                        forall|k: int| 0 <= k < i ==> (#[trigger] before[k]).0@ != job@,
                    decreases self.cancels.len() - i,
                {
                    if text::same(&self.cancels[i].0, &job) {
                        let name = self.cancels[i].0.clone();
                        self.cancels.set(i, (name, true));
                        proof {
                            lemma_flag_set(before, self.cancels@, i as int);
                        }
                        return CancelStep::Answer(
                            BenchRep::Cancelled { job, state: record.state },
                        );
                    }
                    i += 1;
                }
                proof {
                    lemma_flag_absent(before, job@, 0);
                }
                CancelStep::Answer(BenchRep::Cancelled { job, state: record.state })
            },
        }
    }

    /// The files a job hands back: those its journal names and, where there
    /// is one, the child's log, named after the job.
    pub fn artifact_list(
        &self,
        record: &JobRecord,
        events: &Vec<BenchEvent>,
        log: Option<(u64, String)>,
    ) -> (items: Vec<ArtifactMeta>)
        ensures
            match log {
                None => items@ == journaled(events@),
                Some(l) => {
                    &&& items@.len() == journaled(events@).len() + 1
                    &&& items@.drop_last() == journaled(events@)
                    &&& items@.last().name@ == "child.log"@
                    &&& items@.last().relative_path@ == ".certify/"@ + brief_sha(record.spec.sha@)
                        + "/"@ + record.spec.gate@ + ".log"@
                    &&& items@.last().bytes == l.0
                    &&& items@.last().sha256 == l.1
                    &&& items@.last().kind == ArtifactKind::RunLog
                },
            },
    {
        let mut items: Vec<ArtifactMeta> = Vec::new();
        let mut i: usize = 0;
        assert(events@.subrange(0, 0) =~= Seq::empty());
        while i < events.len()
            invariant
                i <= events.len(),
                items@ == journaled(events@.subrange(0, i as int)),
            decreases events.len() - i,
        {
            let ghost next = events@.subrange(0, i + 1);
            assert(next.drop_last() =~= events@.subrange(0, i as int));
            assert(next.last() == events@[i as int]);
            if let EventKind::Artifact { meta } = &events[i].kind {
                items.push(meta.copy());
            }
            i += 1;
        }
        assert(events@.subrange(0, events@.len() as int) =~= events@);
        if let Some(l) = log {
            let short = short_sha(&record.spec.sha);
            let mut relative_path = text::cat2(".certify/", &short);
            relative_path.append("/");
            relative_path.append(&record.spec.gate);
            relative_path.append(".log");
            let ghost listed = items@;
            items.push(
                ArtifactMeta {
                    name: text::copy("child.log"),
                    relative_path,
                    bytes: l.0,
                    sha256: l.1,
                    kind: ArtifactKind::RunLog,
                },
            );
            assert(items@.drop_last() =~= listed);
        }
        items
    }

    /// The answer to a request for a job's files.
    pub fn artifacts(&self, job: String, items: Option<Vec<ArtifactMeta>>) -> (r: BenchRep)
        ensures
            match items {
                Some(items) => r == (BenchRep::Artifacts { job, items }),
                None => r == (BenchRep::Refused {
                    by: self.local,
                    refusal: BenchRefusal::UnknownJob { job },
                }),
            },
    {
        match items {
            Some(items) => BenchRep::Artifacts { job, items },
            None => self.refuse(BenchRefusal::UnknownJob { job }),
        }
    }

    /// Where a file of a job is read, and who is refused.
    pub open spec fn is_chunk_path(
        self,
        job: Seq<char>,
        name: Seq<char>,
        items: Option<&Vec<ArtifactMeta>>,
        r: Result<String, BenchRep>,
    ) -> bool {
        match r {
            Ok(path) => {
                &&& bare_name(name)
                &&& items is Some
                &&& names(items.unwrap()@, name)
                &&& path@ == (if name == "child.log"@ {
                    below(below(self.store.base(), job), "child.log"@)
                } else {
                    below(below(below(self.store.base(), job), "artifacts"@), name)
                })
            },
            Err(rep) => {
                &&& rep matches BenchRep::Refused { by, refusal }
                &&& by == self.local
                &&& if bare_name(name) && items is None {
                    refusal matches BenchRefusal::UnknownJob { job: j } && j@ == job
                } else {
                    &&& !bare_name(name) || !names(items.unwrap()@, name)
                    &&& refusal matches BenchRefusal::NoSuchArtifact { name: n } && n@ == name
                }
            },
        }
    }

    /// Which file a request for a piece of an artifact is about. The name is
    /// a bare one from the job's own manifest, never a path.
    pub fn chunk_path(&self, job: &str, name: &str, items: Option<&Vec<ArtifactMeta>>) -> (r:
        Result<String, BenchRep>)
        ensures
            self.is_chunk_path(job@, name@, items, r),
    {
        if text::has_char(name, '/') || text::has_char(name, '\\') || (text::starts_with(name, ".")
            && !text::same(name, ".sig")) {
            return Err(self.refuse(BenchRefusal::NoSuchArtifact { name: text::copy(name) }));
        }
        match items {
            None => Err(self.refuse(BenchRefusal::UnknownJob { job: text::copy(job) })),
            Some(items) => {
                let mut i: usize = 0;
                let mut found = false;
                while i < items.len() && !found
                    invariant
                        i <= items.len(),
                        found ==> names(items@, name@),
                        !found ==> forall|k: int|
                            0 <= k < i ==> (#[trigger] items@[k]).name@ != name@,
                    decreases items.len() - i,
                {
                    if text::same(&items[i].name, name) {
                        assert(items@[i as int].name@ == name@);
                        found = true;
                    }
                    i += 1;
                }
                if !found {
                    return Err(
                        self.refuse(BenchRefusal::NoSuchArtifact { name: text::copy(name) }),
                    );
                }
                if text::same(name, "child.log") {
                    Ok(self.store.child_log_path(job))
                } else {
                    let dir = self.store.artifacts_dir(job);
                    Ok(join_path(&dir, name))
                }
            },
        }
    }

    /// The refusal where a listed file cannot be opened.
    pub fn no_such_artifact(&self, name: String) -> (r: BenchRep)
        ensures
            r == (BenchRep::Refused {
                by: self.local,
                refusal: BenchRefusal::NoSuchArtifact { name },
            }),
    {
        self.refuse(BenchRefusal::NoSuchArtifact { name })
    }

    /// How many bytes to read for a request.
    pub fn chunk_len(len: u32) -> (n: u32)
        ensures
            n == (if len < MAX_CHUNK {
                len
            } else {
                MAX_CHUNK
            }),
            n <= 262_144,
            n <= len,
            n == len || n == 262_144,
    {
        if len < MAX_CHUNK {
            len
        } else {
            MAX_CHUNK
        }
    }

    /// The answer that carries a piece of an artifact: what was read at an
    /// offset of a file of `total` bytes.
    pub fn chunk(&self, job: String, name: String, offset: u64, data: &Vec<u8>, total: u64) -> (r:
        BenchRep)
        requires
            offset + data@.len() <= u64::MAX,
        ensures
            r matches BenchRep::Chunk { job: j, name: n, offset: o, data_b64, eof } && j == job && n
                == name && o == offset && data_b64@ == base64_of(data@) && eof == (offset
                + data@.len() >= total),
    {
        let data_b64 = base64_encode(data);
        let eof = offset + data.len() as u64 >= total;
        BenchRep::Chunk { job, name, offset, data_b64, eof }
    }
}

proof fn lemma_flag_absent(flags: Seq<(String, bool)>, job: Seq<char>, from: int)
    requires
        0 <= from <= flags.len(),
        forall|k: int| from <= k < flags.len() ==> (#[trigger] flags[k]).0@ != job,
    ensures
        flag_of(flags, job, from) is None,
    decreases flags.len() - from,
{
    if from < flags.len() {
        lemma_flag_absent(flags, job, from + 1);
    }
}

proof fn lemma_flag_set(a: Seq<(String, bool)>, b: Seq<(String, bool)>, i: int)
    requires
        0 <= i < a.len(),
        b == a.update(i, (a[i].0, true)),
        forall|k: int| 0 <= k < i ==> (#[trigger] a[k]).0@ != a[i].0@,
    ensures
        forall|k: Seq<char>| #[trigger]
            flag_of(b, k, 0) == (if k == a[i].0@ {
                Some(true)
            } else {
                flag_of(a, k, 0)
            }),
        flag_of(a, a[i].0@, 0) is Some,
{
    assert forall|k: Seq<char>| #[trigger] flag_of(b, k, 0) == (if k == a[i].0@ {
        Some(true)
    } else {
        flag_of(a, k, 0)
    }) by {
        lemma_flag_set_from(a, b, i, k, 0);
    }
    lemma_flag_set_from(a, b, i, a[i].0@, 0);
}

proof fn lemma_flag_set_from(
    a: Seq<(String, bool)>,
    b: Seq<(String, bool)>,
    i: int,
    k: Seq<char>,
    from: int,
)
    requires
        0 <= i < a.len(),
        0 <= from <= a.len(),
        b == a.update(i, (a[i].0, true)),
        forall|j: int| 0 <= j < i ==> (#[trigger] a[j]).0@ != a[i].0@,
    ensures
        k != a[i].0@ ==> flag_of(b, k, from) == flag_of(a, k, from),
        k == a[i].0@ && from <= i ==> flag_of(b, k, from) == Some(true) && flag_of(
            a,
            k,
            from,
        ) is Some,
    decreases a.len() - from,
{
    if from < a.len() {
        lemma_flag_set_from(a, b, i, k, from + 1);
    }
}

// ---------------------------------------------------------------------------
// Laws
// ---------------------------------------------------------------------------

/// Law: one submission, one job. A submission whose key already names a job
/// creates nothing: it is answered with that job where both ask for the
/// same, and refused as a conflict where they do not.
pub proof fn law_a_key_names_one_job(
    cfg: BenchConfig,
    local: NodeId,
    sender: NodeId,
    s: Submission,
    facts: SubmitFacts,
    step: SubmitStep,
    existing: JobRecord,
)
    requires
        admission(cfg, local, sender, s, facts, step),
        facts.existing matches Ok(Some(e)) && e == existing,
    ensures
        step is Answer,
        step matches SubmitStep::Answer(BenchRep::Accepted { job, existing: e, state, .. }) ==> e
            && job == existing.id && state == existing.state && existing.spec.agrees(
            spec_of(cfg, s),
        ),
{
}

/// Law: a job created from a submission is the job that the same submission
/// finds when it is made again.
pub proof fn law_submitting_again_finds_the_job(
    cfg: BenchConfig,
    local: NodeId,
    sender: NodeId,
    s: Submission,
    first: SubmitFacts,
    step: SubmitStep,
    again: SubmitFacts,
    next: SubmitStep,
)
    requires
        admission(cfg, local, sender, s, first, step),
        step is Create,
        again.params == first.params,
        again.existing == Ok::<Option<JobRecord>, String>(Some(step->record)),
        admission(cfg, local, sender, s, again, next),
    ensures
        next matches SubmitStep::Answer(BenchRep::Accepted { job, existing, .. }) && existing && job
            == step->record.id,
{
}

/// Law: nothing is created beyond the depth of the queue, or where the disk
/// is low.
pub proof fn law_a_full_queue_takes_nothing(
    cfg: BenchConfig,
    local: NodeId,
    sender: NodeId,
    s: Submission,
    facts: SubmitFacts,
    step: SubmitStep,
)
    requires
        admission(cfg, local, sender, s, facts, step),
        step is Create,
    ensures
        depth_of(facts.jobs) < cfg.queue_depth,
        step->position == depth_of(facts.jobs) + 1,
        facts.disk_free matches Some(free) ==> free >= cfg.min_free_disk_bytes,
        step->record.spec.max_run_s <= cfg.max_run_s,
        opt_view(step->record.note) matches Some(n) ==> n.len() <= MAX_NOTE,
{
}

/// Times in ascending order, none later than `now`.
pub open spec fn clocked(times: Seq<u64>, now: u64) -> bool {
    &&& forall|i: int, j: int| 0 <= i <= j < times.len() ==> times[i] <= times[j]
    &&& forall|i: int| 0 <= i < times.len() ==> times[i] <= now
}

/// Law: what counts against a peer is exactly what it submitted in the last
/// minute.
pub proof fn law_only_the_last_minute_counts(times: Seq<u64>, now: u64)
    requires
        clocked(times, now),
    ensures
        clocked(recent(times, now), now),
        forall|i: int| 0 <= i < recent(times, now).len() ==> now - recent(times, now)[i] <= 60_000,
        recent(times, now).len() <= times.len(),
        forall|i: int|
            0 <= i < times.len() - recent(times, now).len() ==> now - #[trigger] times[i] > 60_000,
        recent(times, now) == times.subrange(
            times.len() - recent(times, now).len(),
            times.len() as int,
        ),
    decreases times.len(),
{
    if times.len() > 0 && now - times[0] > 60_000 {
        let rest = times.drop_first();
        law_only_the_last_minute_counts(rest, now);
        let r = recent(times, now);
        assert(rest.subrange(rest.len() - r.len(), rest.len() as int) =~= times.subrange(
            times.len() - r.len(),
            times.len() as int,
        ));
        assert forall|i: int| 0 <= i < times.len() - r.len() implies now - #[trigger] times[i]
            > 60_000 by {
            if i > 0 {
                assert(times[i] == rest[i - 1]);
            }
        }
    } else {
        assert(times.subrange(0, times.len() as int) =~= times);
    }
}

/// Law: a peer never has more than its allowance counted, however often it
/// submits.
pub proof fn law_the_allowance_is_kept(times: Seq<u64>, now: u64)
    requires
        times.len() <= SUBMITS_PER_MINUTE,
    ensures
        recent(times, now).len() <= SUBMITS_PER_MINUTE,
        recent(times, now).len() < SUBMITS_PER_MINUTE ==> recent(times, now).push(now).len()
            <= SUBMITS_PER_MINUTE,
    decreases times.len(),
{
    if times.len() > 0 && now - times[0] > 60_000 {
        law_the_allowance_is_kept(times.drop_first(), now);
    }
}

/// Law: the queue is served in order. No queued job is older than the one
/// that runs next.
pub proof fn law_the_oldest_runs_first(jobs: Seq<JobRecord>, i: int)
    requires
        queue_of(jobs).len() > 0,
        0 <= i < jobs.len(),
        jobs[i].state == JobState::Queued,
    ensures
        !QueueOrder::lt(jobs[i], queue_of(jobs)[0]),
        queue_of(jobs)[0].created_at_s <= jobs[i].created_at_s,
{
    let waiting = in_state(jobs, JobState::Queued);
    lemma_in_state(jobs, JobState::Queued, i);
    crate::order::lemma_arranged::<JobRecord, QueueOrder>(waiting);
    crate::order::lemma_arranged_contains::<JobRecord, QueueOrder>(waiting, jobs[i]);
    let q = queue_of(jobs);
    let k = choose|k: int| 0 <= k < q.len() && q[k] == jobs[i];
    assert(q.contains(jobs[i]));
    if k == 0 {
        text::lemma_precedes_irreflexive(jobs[i].id@);
    } else {
        assert(!QueueOrder::lt(q[k], q[0]));
    }
}

proof fn lemma_in_state(jobs: Seq<JobRecord>, state: JobState, i: int)
    requires
        0 <= i < jobs.len(),
        jobs[i].state == state,
    ensures
        in_state(jobs, state).contains(jobs[i]),
    decreases jobs.len(),
{
    let rest = in_state(jobs.drop_last(), state);
    if i == jobs.len() - 1 {
        assert(in_state(jobs, state)[rest.len() as int] == jobs[i]);
    } else {
        assert(jobs.drop_last()[i] == jobs[i]);
        lemma_in_state(jobs.drop_last(), state, i);
        let k = choose|k: int| 0 <= k < rest.len() && rest[k] == jobs[i];
        assert(in_state(jobs, state)[k] == jobs[i]);
    }
}

/// The flags of the first `n` jobs other than `job`.
spec fn others(flags: Seq<(String, bool)>, job: Seq<char>, n: int) -> Seq<(String, bool)>
    decreases n,
{
    if n <= 0 {
        Seq::empty()
    } else if flags[n - 1].0@ == job {
        others(flags, job, n - 1)
    } else {
        others(flags, job, n - 1).push(flags[n - 1])
    }
}

fn append_others(out: &mut Vec<(String, bool)>, flags: &Vec<(String, bool)>, job: &str)
    ensures
        final(out)@ == old(out)@ + others(flags@, job@, flags@.len() as int),
{
    let mut i: usize = 0;
    assert(out@ =~= old(out)@ + others(flags@, job@, 0));
    while i < flags.len()
        invariant
            i <= flags.len(),
            out@ == old(out)@ + others(flags@, job@, i as int),
        decreases flags.len() - i,
    {
        if !text::same(&flags[i].0, job) {
            out.push((flags[i].0.clone(), flags[i].1));
        }
        i += 1;
        assert(out@ =~= old(out)@ + others(flags@, job@, i as int));
    }
}

proof fn lemma_flag_concat(a: Seq<(String, bool)>, b: Seq<(String, bool)>, k: Seq<char>, from: int)
    requires
        0 <= from <= a.len(),
    ensures
        flag_of(a + b, k, from) == (match flag_of(a, k, from) {
            Some(f) => Some(f),
            None => flag_of(b, k, 0),
        }),
    decreases a.len() - from,
{
    if from == a.len() {
        lemma_flag_tail(a, b, k, 0);
    } else if a[from].0@ != k {
        lemma_flag_concat(a, b, k, from + 1);
    }
}

proof fn lemma_flag_tail(a: Seq<(String, bool)>, b: Seq<(String, bool)>, k: Seq<char>, i: int)
    requires
        0 <= i <= b.len(),
    ensures
        flag_of(a + b, k, a.len() + i) == flag_of(b, k, i),
    decreases b.len() - i,
{
    if i < b.len() && b[i].0@ != k {
        lemma_flag_tail(a, b, k, i + 1);
    }
}

proof fn lemma_others(flags: Seq<(String, bool)>, job: Seq<char>, n: int)
    requires
        0 <= n <= flags.len(),
    ensures
        forall|k: Seq<char>| #[trigger]
            flag_of(others(flags, job, n), k, 0) == (if k == job {
                None
            } else {
                flag_of(flags.subrange(0, n), k, 0)
            }),
    decreases n,
{
    if n > 0 {
        lemma_others(flags, job, n - 1);
        let head = others(flags, job, n - 1);
        let last = seq![flags[n - 1]];
        assert(flags.subrange(0, n) =~= flags.subrange(0, n - 1) + last);
        assert forall|k: Seq<char>| #[trigger] flag_of(others(flags, job, n), k, 0) == (if k
            == job {
            None
        } else {
            flag_of(flags.subrange(0, n), k, 0)
        }) by {
            lemma_flag_concat(flags.subrange(0, n - 1), last, k, 0);
            lemma_flag_concat(head, last, k, 0);
            assert(head + last =~= head.push(flags[n - 1]));
            reveal_with_fuel(flag_of, 2);
            assert(last[0].0@ == flags[n - 1].0@);
        }
    }
}

proof fn lemma_registered(
    flags: Seq<(String, bool)>,
    before: Seq<(String, bool)>,
    job: Seq<char>,
)
    requires
        flags.len() > 0,
        flags[0].0@ == job,
        !flags[0].1,
        flags == seq![flags[0]] + others(before, job, before.len() as int),
    ensures
        forall|k: Seq<char>| #[trigger]
            flag_of(flags, k, 0) == (if k == job {
                Some(false)
            } else {
                flag_of(before, k, 0)
            }),
{
    lemma_others(before, job, before.len() as int);
    assert(before.subrange(0, before.len() as int) =~= before);
    assert forall|k: Seq<char>| #[trigger] flag_of(flags, k, 0) == (if k == job {
        Some(false)
    } else {
        flag_of(before, k, 0)
    }) by {
        let one = seq![flags[0]];
        lemma_flag_concat(one, others(before, job, before.len() as int), k, 0);
        reveal_with_fuel(flag_of, 2);
        assert(one[0].0@ == job);
    }
}

/// The answer of a step.
pub open spec fn cancel_reply(step: CancelStep) -> BenchRep {
    match step {
        CancelStep::Answer(reply) => reply,
        CancelStep::Close { reply, .. } => reply,
    }
}

/// The record as the store has it after a step: closed, with whatever number
/// its last event got, where the step closed it.
pub open spec fn record_after(loaded: JobRecord, step: CancelStep, seq_high: u64) -> JobRecord {
    match step {
        CancelStep::Answer(_) => loaded,
        CancelStep::Close { record, .. } => JobRecord { seq_high, ..record },
    }
}

/// Law: asking twice for a job to end is asking once. The second answer is
/// the first one, nothing is closed again, and no flag changes any more.
pub proof fn law_cancelling_again_changes_nothing(
    a: BenchHost,
    b: BenchHost,
    c: BenchHost,
    job: String,
    loaded: JobRecord,
    seq_high: u64,
    first_s: u64,
    then_s: u64,
    first: CancelStep,
    second: CancelStep,
)
    requires
        a.told_to_end(job, Some(loaded), first_s, b, first),
        b.told_to_end(job, Some(record_after(loaded, first, seq_high)), then_s, c, second),
    ensures
        second == CancelStep::Answer(cancel_reply(first)),
        forall|k: Seq<char>| #[trigger] c.cancel_flag(k) == b.cancel_flag(k),
        c.busy_with() == a.busy_with(),
{
}

/// Law: the journal of a job opens with its place in the queue. Written as
/// the first event of an empty journal, the event that a submission names is
/// the whole of the journal, and it names the place that the answer gives.
pub proof fn law_a_journal_opens_with_the_place(
    cfg: BenchConfig,
    local: NodeId,
    sender: NodeId,
    s: Submission,
    facts: SubmitFacts,
    step: SubmitStep,
    e: BenchEvent,
)
    requires
        admission(cfg, local, sender, s, facts, step),
        step is Create,
        e.kind == step->opening,
        e.seq == 1,
    ensures
        e.kind == (EventKind::Queued { position: (depth_of(facts.jobs) + 1) as u32 }),
        step->position == depth_of(facts.jobs) + 1,
        numbered(after_write(Seq::empty(), e), 1, 1) == seq![e],
{
    law_an_appended_event_is_replayed(Seq::empty(), e, 1);
    assert(after_write(Seq::empty(), e).len() == 1);
    assert(numbered(Seq::empty(), 1, 0) =~= Seq::<BenchEvent>::empty());
    assert(Seq::<BenchEvent>::empty().push(e) =~= seq![e]);
}

/// Law: the journal of a queued job that was cancelled ends with that. What a
/// replay gives once the closing event is written is what it gave before,
/// followed by the end of the job, with the outcome that its record has.
pub proof fn law_a_cancelled_journal_ends_with_done(
    a: BenchHost,
    b: BenchHost,
    job: String,
    loaded: JobRecord,
    now_s: u64,
    step: CancelStep,
    lines: Seq<Option<BenchEvent>>,
    e: BenchEvent,
    from: u64,
)
    requires
        a.told_to_end(job, Some(loaded), now_s, b, step),
        loaded.state == JobState::Queued,
        whole(lines),
        e.kind == step->closing,
        e.seq >= from,
    ensures
        numbered(after_write(lines, e), from, after_write(lines, e).len() as int) == numbered(
            lines,
            from,
            lines.len() as int,
        ).push(e),
        e.kind == (EventKind::Done { outcome: Outcome::Cancelled { by: a.local } }),
        step->Close_record.outcome == Some(Outcome::Cancelled { by: a.local }),
        step->Close_record.state == JobState::Done,
{
    law_an_appended_event_is_replayed(lines, e, from);
}

/// Law: the record of a job is keyed where its submission was.
pub proof fn law_a_record_is_keyed(
    cfg: BenchConfig,
    local: NodeId,
    sender: NodeId,
    s: Submission,
    facts: SubmitFacts,
    step: SubmitStep,
)
    requires
        admission(cfg, local, sender, s, facts, step),
        s.keyed(),
    ensures
        step matches SubmitStep::Create { record, .. } ==> record.keyed(),
{
}

/// Law: a record that is keyed stays so when its job is cancelled.
pub proof fn law_a_cancelled_record_stays_keyed(
    a: BenchHost,
    b: BenchHost,
    job: String,
    loaded: JobRecord,
    now_s: u64,
    step: CancelStep,
    seq_high: u64,
)
    requires
        a.told_to_end(job, Some(loaded), now_s, b, step),
        loaded.keyed(),
    ensures
        record_after(loaded, step, seq_high).keyed(),
{
}

/// Law: a job may run as long as the node allows. Where the submission names
/// no ceiling of its own the node's holds, and where it names one the lower of
/// the two does; nothing else of the submission is changed.
pub proof fn law_a_job_runs_as_long_as_it_may(
    cfg: BenchConfig,
    local: NodeId,
    sender: NodeId,
    s: Submission,
    facts: SubmitFacts,
    step: SubmitStep,
)
    requires
        admission(cfg, local, sender, s, facts, step),
        step is Create,
    ensures
        ({
            let r = step->Create_record;
            &&& s.max_run_s is None ==> r.spec.max_run_s == cfg.max_run_s
            &&& s.max_run_s matches Some(m) ==> r.spec.max_run_s <= m && r.spec.max_run_s
                <= cfg.max_run_s && (r.spec.max_run_s == m || r.spec.max_run_s == cfg.max_run_s)
            &&& cfg.max_run_s > 0 && s.max_run_s != Some(0u32) ==> r.spec.max_run_s > 0
            &&& r.spec.sha == s.sha
            &&& r.spec.gate == s.gate
            &&& r.spec.params == s.params
            &&& r.spec.checkpoint == s.checkpoint
            &&& r.key == s.job_key
            &&& r.sender == sender
            &&& r.state == JobState::Queued
            &&& r.outcome is None
            &&& r.created_at_s == facts.now_s && r.updated_at_s == facts.now_s
            &&& r.child_pid is None && r.child_start_ticks is None && r.binary_sha256 is None
            &&& r.note is Some <==> s.note is Some
        }),
{
}

/// In a state.
pub open spec fn is_in(state: JobState) -> spec_fn(JobRecord) -> bool {
    |j: JobRecord| j.state == state
}

/// Law: jobs are picked by their state and by nothing else, and keep their
/// order; the queue holds exactly the queued ones.
pub proof fn law_jobs_are_picked_by_state(jobs: Seq<JobRecord>, state: JobState)
    ensures
        in_state(jobs, state) == jobs.filter(is_in(state)),
        queue_of(jobs).to_multiset() == jobs.filter(is_in(JobState::Queued)).to_multiset(),
        queue_of(jobs).len() == jobs.filter(is_in(JobState::Queued)).len(),
        forall|i: int, j: int|
            0 <= i < j < queue_of(jobs).len() ==> (#[trigger] queue_of(jobs)[i]).created_at_s <= (
            #[trigger] queue_of(jobs)[j]).created_at_s && (queue_of(jobs)[i].created_at_s
                == queue_of(jobs)[j].created_at_s ==> !text::precedes(
                queue_of(jobs)[j].id@,
                queue_of(jobs)[i].id@,
            )),
{
    lemma_picked_by_state(jobs, state);
    lemma_picked_by_state(jobs, JobState::Queued);
    let waiting = in_state(jobs, JobState::Queued);
    crate::order::lemma_arranged::<JobRecord, QueueOrder>(waiting);
    let q = queue_of(jobs);
    assert forall|i: int, j: int| 0 <= i < j < q.len() implies (#[trigger] q[i]).created_at_s <= (
    #[trigger] q[j]).created_at_s && (q[i].created_at_s == q[j].created_at_s ==> !text::precedes(
        q[j].id@,
        q[i].id@,
    )) by {
        assert(!QueueOrder::lt(q[j], q[i]));
    }
}

proof fn lemma_picked_by_state(jobs: Seq<JobRecord>, state: JobState)
    ensures
        in_state(jobs, state) == jobs.filter(is_in(state)),
    decreases jobs.len(),
{
    reveal(Seq::filter);
    if jobs.len() > 0 {
        lemma_picked_by_state(jobs.drop_last(), state);
    } else {
        assert(in_state(jobs, state) =~= jobs.filter(is_in(state)));
    }
}

/// Law: a job's place is where it stands in the queue, counted from one, and
/// zero where it does not stand in it.
pub proof fn law_a_place_is_counted_from_one(queue: Seq<JobRecord>, id: Seq<char>, k: int)
    ensures
        0 <= k < queue.len() && queue[k].id@ == id && (forall|j: int|
            0 <= j < k ==> (#[trigger] queue[j]).id@ != id) ==> position_in(queue, id, 0) == k + 1,
        (forall|j: int| 0 <= j < queue.len() ==> (#[trigger] queue[j]).id@ != id) ==> position_in(
            queue,
            id,
            0,
        ) == 0,
{
    lemma_position(queue, id, 0, k);
}

proof fn lemma_position(queue: Seq<JobRecord>, id: Seq<char>, from: int, k: int)
    requires
        0 <= from <= queue.len(),
    ensures
        from <= k < queue.len() && queue[k].id@ == id && (forall|j: int|
            from <= j < k ==> (#[trigger] queue[j]).id@ != id) ==> position_in(queue, id, from) == k
            + 1,
        (forall|j: int| from <= j < queue.len() ==> (#[trigger] queue[j]).id@ != id)
            ==> position_in(queue, id, from) == 0,
    decreases queue.len() - from,
{
    if from < queue.len() {
        lemma_position(queue, id, from + 1, k);
    }
}

/// A checkpoint name: letters, digits and `._/-`, and no more than 128 of
/// them.
pub open spec fn names_checkpoint(c: Seq<char>) -> bool {
    &&& 1 <= c.len()
    &&& vstd::utf8::encode_utf8(c).len() <= 128
    &&& forall|i: int|
        0 <= i < c.len() ==> {
            let x = #[trigger] c[i];
            ('a' <= x && x <= 'z') || ('A' <= x && x <= 'Z') || ('0' <= x && x <= '9') || x == '.'
                || x == '_' || x == '/' || x == '-'
        }
}

/// How many of the jobs are queued.
pub open spec fn queued_now(jobs: Seq<JobRecord>) -> nat {
    jobs.filter(is_in(JobState::Queued)).len()
}

/// Law: a submission is queued exactly when nothing stands against it: its
/// parameters and its checkpoint are well formed, it is for this kind of
/// machine, its key names no job, and there is room in the queue and on the
/// disk. It is then given the place behind all that are queued.
pub proof fn law_a_submission_is_queued_when_it_can_be(
    cfg: BenchConfig,
    local: NodeId,
    sender: NodeId,
    s: Submission,
    facts: SubmitFacts,
    step: SubmitStep,
)
    requires
        admission(cfg, local, sender, s, facts, step),
        facts.jobs matches Ok(jobs) ==> queued_now(jobs@) < u32::MAX,
    ensures
        step is Create <==> {
            &&& facts.params is Ok
            &&& s.checkpoint matches Some(c) ==> names_checkpoint(c@)
            &&& s.hardware matches Some(h) ==> h@ == cfg.hardware@
            &&& facts.existing == Ok::<Option<JobRecord>, String>(None)
            &&& facts.jobs matches Ok(jobs) && queued_now(jobs@) < cfg.queue_depth
            &&& facts.disk_free matches Some(free) ==> free >= cfg.min_free_disk_bytes
        },
        step matches SubmitStep::Create { record, position, opening } ==> facts.jobs matches Ok(
            jobs,
        ) && position == queued_now(jobs@) + 1 && opening == (EventKind::Queued { position }),
        step matches SubmitStep::Answer(BenchRep::Refused { by, refusal }) ==> by == local && match
            refusal {
            BenchRefusal::BadParams { errors } => facts.params is Err || (s.checkpoint matches Some(
                c,
            ) && !names_checkpoint(c@)),
            BenchRefusal::KeyConflict { job } => facts.existing matches Ok(Some(e)) && e.id == job
                && !e.spec.agrees(spec_of(cfg, s)),
            BenchRefusal::QueueFull { depth, .. } => depth >= cfg.queue_depth && (
            facts.jobs matches Ok(jobs) ==> depth == queued_now(jobs@)),
            BenchRefusal::DiskLow { free_bytes, required_bytes } => facts.disk_free == Some(
                free_bytes,
            ) && required_bytes == cfg.min_free_disk_bytes && free_bytes < required_bytes,
            BenchRefusal::NotConfigured { .. } => facts.existing is Err || (s.hardware matches Some(
                h,
            ) && h@ != cfg.hardware@),
            _ => false,
        },
        step matches SubmitStep::Answer(BenchRep::Accepted { job, existing, state, position })
            ==> existing && (facts.existing matches Ok(Some(e)) && e.id == job && e.state == state
            && e.spec.sha@ == s.sha@ && e.spec.gate@ == s.gate@ && opt_view(e.spec.checkpoint)
            == opt_view(s.checkpoint) && e.spec.params@.len() == s.params@.len()),
        step is Create || step matches SubmitStep::Answer(BenchRep::Refused { .. })
            || step matches SubmitStep::Answer(BenchRep::Accepted { .. }),
{
    if let Ok(jobs) = facts.jobs {
        law_jobs_are_picked_by_state(jobs@, JobState::Queued);
    }
    if let Some(c) = s.checkpoint {
        assert(checkpoint_ok(c@) == names_checkpoint(c@)) by {
            if checkpoint_ok(c@) {
                assert forall|i: int| 0 <= i < c@.len() implies {
                    let x = #[trigger] c@[i];
                    ('a' <= x && x <= 'z') || ('A' <= x && x <= 'Z') || ('0' <= x && x <= '9') || x
                        == '.' || x == '_' || x == '/' || x == '-'
                } by {
                    assert(is_alnum(c@[i]) || c@[i] == '.' || c@[i] == '_' || c@[i] == '/' || c@[i]
                        == '-');
                }
            }
        }
    }
}

/// Law: a peer may submit thirty times a minute and not more often. A
/// submission beyond that is refused whatever it holds, any other is judged,
/// and no other peer's allowance is touched.
pub proof fn law_a_flood_is_refused(
    a: BenchHost,
    sender: NodeId,
    s: Submission,
    facts: SubmitFacts,
    b: BenchHost,
    step: SubmitStep,
    other: NodeId,
)
    requires
        a.takes(sender, s, facts, b, step),
        clocked(a.submitted(sender), facts.now_ms),
    ensures
        ({
            let all = a.submitted(sender);
            let full = all.len() >= 30 && facts.now_ms - all[all.len() - 30] <= 60_000;
            &&& full ==> step == SubmitStep::Answer(
                BenchRep::Refused {
                    by: a.local,
                    refusal: BenchRefusal::RateLimited { retry_after_s: 60 },
                },
            )
            &&& !full ==> admission(a.cfg, a.local, sender, s, facts, step) && b.submitted(
                sender,
            ).len() > 0 && b.submitted(sender).last() == facts.now_ms
            &&& full ==> !b.submitted(sender).contains(facts.now_ms) || all.contains(facts.now_ms)
        }),
        clocked(b.submitted(sender), facts.now_ms),
        other != sender ==> b.submitted(other) == a.submitted(other),
        b.busy_with() == a.busy_with(),
        b.cancel_flag(s.job_key@) == a.cancel_flag(s.job_key@),
{
    let all = a.submitted(sender);
    let kept = recent(all, facts.now_ms);
    law_only_the_last_minute_counts(all, facts.now_ms);
    let cut = all.len() - kept.len();
    if all.len() >= 30 {
        let i = all.len() - 30;
        if kept.len() >= 30 {
            assert(all[i] == kept[i - cut]);
        } else {
            assert(facts.now_ms - all[i] > 60_000);
        }
    }
    if kept.len() >= 30 && b.submitted(sender).contains(facts.now_ms) {
        let k = choose|k: int| 0 <= k < kept.len() && kept[k] == facts.now_ms;
        assert(all[k + cut] == facts.now_ms);
    }
}

/// Law: asking for a job to end reaches it. A job that is on its way and was
/// registered is signalled, and no other is; a queued one is done, a finished
/// one stays as it is, and one that is not known is refused.
pub proof fn law_a_cancel_reaches_the_job(
    a: BenchHost,
    b: BenchHost,
    job: String,
    loaded: Option<JobRecord>,
    now_s: u64,
    step: CancelStep,
    other: Seq<char>,
)
    requires
        a.told_to_end(job, loaded, now_s, b, step),
    ensures
        other != job@ ==> b.cancel_flag(other) == a.cancel_flag(other),
        match loaded {
            None => step == CancelStep::Answer(
                BenchRep::Refused { by: a.local, refusal: BenchRefusal::UnknownJob { job } },
            ) && b.cancel_flag(job@) == a.cancel_flag(job@),
            Some(r) => match r.state {
                JobState::Done => step == CancelStep::Answer(
                    BenchRep::Cancelled { job, state: JobState::Done },
                ) && b.cancel_flag(job@) == a.cancel_flag(job@),
                JobState::Queued => step is Close && step->Close_record.state == JobState::Done
                    && step->Close_record.id == r.id && step->Close_record.spec == r.spec
                    && step->Close_record.updated_at_s == now_s && step->Close_record.outcome
                    == Some(Outcome::Cancelled { by: a.local }),
                _ => step == CancelStep::Answer(BenchRep::Cancelled { job, state: r.state }) && (
                a.cancel_flag(job@) is Some ==> b.cancel_flag(job@) == Some(true)),
            },
        },
        b.busy_with() == a.busy_with(),
{
}

/// Law: of a note everything is kept that can be printed, in its order, up to
/// its bound.
pub proof fn law_a_note_is_kept(s: Seq<char>)
    ensures
        printable(s) == s.filter(is_printable()),
        kept_note(s).len() <= 256,
        kept_note(s) == s.filter(is_printable()).subrange(0, kept_note(s).len() as int),
        kept_note(s).len() < 256 ==> kept_note(s) == s.filter(is_printable()),
{
    lemma_printable_filter(s);
    assert(printable(s).subrange(0, printable(s).len() as int) =~= printable(s));
}

/// Not a control character.
pub open spec fn is_printable() -> spec_fn(char) -> bool {
    |c: char| !(c as u32 <= 0x1f || 0x7f <= c as u32 <= 0x9f)
}

proof fn lemma_printable_filter(s: Seq<char>)
    ensures
        printable(s) == s.filter(is_printable()),
    decreases s.len(),
{
    reveal(Seq::filter);
    if s.len() > 0 {
        lemma_printable_filter(s.drop_last());
    }
}

/// An event that names an artifact.
pub open spec fn artifact_in() -> spec_fn(BenchEvent) -> Option<ArtifactMeta> {
    |e: BenchEvent|
        match e.kind {
            EventKind::Artifact { meta } => Some(meta),
            _ => None,
        }
}

/// Law: the files of a job are those that its journal names, each as it is
/// named and in that order.
pub proof fn law_the_journal_names_the_files(events: Seq<BenchEvent>)
    ensures
        journaled(events) == events.filter_map(artifact_in()),
    decreases events.len(),
{
    if events.len() > 0 {
        law_the_journal_names_the_files(events.drop_last());
        assert(journaled(events) =~= events.filter_map(artifact_in()));
    }
}

/// Law: the flag of a job is the one that stands beside its name.
pub proof fn law_a_flag_stands_beside_its_job(flags: Seq<(String, bool)>, job: Seq<char>, k: int)
    requires
        0 <= k < flags.len(),
        flags[k].0@ == job,
        forall|j: int| 0 <= j < k ==> (#[trigger] flags[j]).0@ != job,
    ensures
        flag_of(flags, job, 0) == Some(flags[k].1),
{
    lemma_flag_found(flags, job, 0, k);
}

proof fn lemma_flag_found(flags: Seq<(String, bool)>, job: Seq<char>, from: int, k: int)
    requires
        0 <= from <= k < flags.len(),
        flags[k].0@ == job,
        forall|j: int| from <= j < k ==> (#[trigger] flags[j]).0@ != job,
    ensures
        flag_of(flags, job, from) == Some(flags[k].1),
    decreases k - from,
{
    if from < k {
        assert(flags[from].0@ != job);
        lemma_flag_found(flags, job, from + 1, k);
    }
}

/// Law: a file is read exactly where it is one of the job's own: its name is
/// bare, and the job lists it. It is read in the job's directory, the log
/// there and everything else among the artifacts; and a name that leads
/// anywhere else is refused.
pub proof fn law_only_a_listed_file_is_read(
    h: BenchHost,
    job: Seq<char>,
    name: Seq<char>,
    items: Option<&Vec<ArtifactMeta>>,
    r: Result<String, BenchRep>,
)
    requires
        h.is_chunk_path(job, name, items, r),
    ensures
        r is Ok <==> {
            &&& !name.contains('/')
            &&& !name.contains('\\')
            &&& name.len() > 0 && name[0] == '.' ==> name == ".sig"@
            &&& items matches Some(v) && exists|i: int|
                0 <= i < v@.len() && (#[trigger] v@[i]).name@ == name
        },
        r matches Ok(path) ==> path@ == (if name == "child.log"@ {
            below(below(h.store.base(), job), "child.log"@)
        } else {
            below(below(below(h.store.base(), job), "artifacts"@), name)
        }),
        r matches Err(rep) ==> (rep matches BenchRep::Refused { by, .. } && by == h.local),
{
    reveal_strlit(".");
    if name.len() > 0 {
        assert(name.subrange(0, 1) =~= seq![name[0]]);
        assert("."@ =~= seq!['.']);
        assert(text::begins(name, "."@) <==> name[0] == '.') by {
            if text::begins(name, "."@) {
                assert(name.subrange(0, 1)[0] == '.');
            }
        }
    }
}

/// Law: a job that is taken is recorded as it was submitted: queued, under its
/// key and its sender, with what is to be run, and with nothing that a run
/// would have left.
pub proof fn law_a_new_job_is_recorded_as_submitted(
    r: JobRecord,
    cfg: BenchConfig,
    sender: NodeId,
    s: Submission,
    now_s: u64,
)
    requires
        fresh_record(r, cfg, sender, s, now_s),
    ensures
        r.key == s.job_key && r.sender == sender,
        r.spec.sha == s.sha && r.spec.gate == s.gate && r.spec.params == s.params
            && r.spec.checkpoint == s.checkpoint,
        s.max_run_s matches Some(m) ==> r.spec.max_run_s <= m,
        r.spec.max_run_s <= cfg.max_run_s,
        r.spec.max_run_s == cfg.max_run_s || s.max_run_s == Some(r.spec.max_run_s),
        r.state is Queued && r.created_at_s == now_s && r.updated_at_s == now_s,
        r.child_pid is None && r.child_start_ticks is None && r.binary_sha256 is None && r.outcome
            is None && r.seq_high == 0 && r.records_before@.len() == 0,
        r.note is Some <==> s.note is Some,
{
}

/// Law: a job is summed up by what its record holds.
pub proof fn law_a_job_is_summed_up_by_its_record(jobs: Seq<JobRecord>, i: int)
    requires
        0 <= i < jobs.len(),
    ensures
        summaries(jobs, jobs.len() as int).len() == jobs.len(),
        ({
            let s = summaries(jobs, jobs.len() as int)[i];
            let j = jobs[i];
            &&& s.job == j.id && s.job_key == j.key && s.sha == j.spec.sha && s.gate == j.spec.gate
            &&& s.state == j.state && s.outcome == j.outcome && s.seq_high == j.seq_high
            &&& s.created_at_s == j.created_at_s && s.updated_at_s == j.updated_at_s
        }),
{
}

/// Law: a submission that is refused is told what stands against it, the first
/// of these: its parameters, its checkpoint, the class of the box, a store that
/// cannot be read, another job under its key, a full queue, a full disk.
pub proof fn law_a_refused_submission_is_told_why(
    cfg: BenchConfig,
    local: NodeId,
    sender: NodeId,
    s: Submission,
    facts: SubmitFacts,
    step: SubmitStep,
)
    requires
        admission(cfg, local, sender, s, facts, step),
    ensures
        ({
            let told = step->Answer_0;
            let sound = facts.params is Ok && (s.checkpoint matches Some(c) ==> checkpoint_ok(c@));
            let here = sound && (s.hardware matches Some(h) ==> h@ == cfg.hardware@);
            let depth = depth_of(facts.jobs);
            &&& facts.params matches Err(e) ==> step is Answer && (told matches BenchRep::Refused {
                by,
                refusal: BenchRefusal::BadParams { errors },
            } && by == local && errors@.len() == 1 && errors@[0]@ == e@)
            &&& facts.params is Ok && !sound ==> step is Answer && (told matches BenchRep::Refused {
                refusal,
                ..
            } && refusal is BadParams)
            &&& sound && !here ==> step is Answer && (told matches BenchRep::Refused {
                refusal,
                ..
            } && refusal is NotConfigured)
            &&& here && facts.existing is Err ==> step is Answer && (told matches BenchRep::Refused {
                refusal,
                ..
            } && refusal is NotConfigured)
            &&& here && facts.existing == Ok::<Option<JobRecord>, String>(None) && depth
                >= cfg.queue_depth ==> step == SubmitStep::Answer(
                BenchRep::Refused {
                    by: local,
                    refusal: BenchRefusal::QueueFull { depth, retry_after_s: 300 },
                },
            )
            &&& here && facts.existing == Ok::<Option<JobRecord>, String>(None) && depth
                < cfg.queue_depth && (facts.disk_free matches Some(n) && n
                < cfg.min_free_disk_bytes) ==> step == SubmitStep::Answer(
                BenchRep::Refused {
                    by: local,
                    refusal: BenchRefusal::DiskLow {
                        free_bytes: facts.disk_free.unwrap(),
                        required_bytes: cfg.min_free_disk_bytes,
                    },
                },
            )
        }),
{
    if facts.params is Err {
        let told = step->Answer_0;
        let errors = told->refusal->errors;
        assert(text::views(errors@)[0] == facts.params->Err_0@);
        assert(text::views(errors@).len() == errors@.len());
    }
}

} // verus!
