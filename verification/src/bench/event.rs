//! The states, outcomes and events of a job, as submitters see them.
use crate::node::NodeId;
use vstd::prelude::*;

verus! {

/// How far a job has come.
#[derive(Debug, Clone, Copy, PartialEq, Eq, Structural)]
pub enum JobState {
    Queued,
    Preparing,
    Building,
    Running,
    Collecting,
    Done,
}

impl JobState {
    /// Nothing more will happen to the job.
    pub open spec fn terminal(self) -> bool {
        self == JobState::Done
    }

    /// Nothing more will happen to the job.
    pub fn is_terminal(&self) -> (r: bool)
        ensures
            r == self.terminal(),
    {
        *self == JobState::Done
    }
}

/// What a gate concluded.
#[derive(Debug, Clone, Copy, PartialEq, Eq, Structural)]
pub enum VerdictKind {
    Pass,
    Fail,
    Info,
}

/// The verdict line of a gate.
#[derive(Debug, Clone, PartialEq, Eq)]
pub struct Verdict {
    pub kind: VerdictKind,
    pub text: String,
}

/// How a job ended.
#[derive(Debug, Clone, PartialEq, Eq)]
pub enum Outcome {
    /// The benchmark ran to its own end.
    Completed {
        exit_code: i32,
        verdict: Option<Verdict>,
        record: Option<String>,
        signature: Option<String>,
    },
    /// A stage could not be finished.
    Failed { stage: JobState, reason: String },
    /// A stage went on for too long.
    TimedOut { stage: JobState, after_s: u64 },
    /// Somebody asked for it to end.
    Cancelled { by: NodeId },
    /// The agent restarted and could not take the job up again.
    Orphaned { reason: String },
}

/// What an artifact is.
#[derive(Debug, Clone, Copy, PartialEq, Eq, Structural)]
pub enum ArtifactKind {
    Record,
    Signature,
    RunLog,
}

/// One file that a job hands back.
#[derive(Debug, Clone, PartialEq, Eq)]
pub struct ArtifactMeta {
    pub name: String,
    pub relative_path: String,
    pub bytes: u64,
    pub sha256: String,
    pub kind: ArtifactKind,
}

/// Which of the job's processes wrote a line.
#[derive(Debug, Clone, Copy, PartialEq, Eq, Structural)]
pub enum LogStream {
    Run,
}

/// What happened.
#[derive(Debug, Clone, PartialEq, Eq)]
pub enum EventKind {
    Queued { position: u32 },
    Preparing { sha: String, fetched: bool },
    Build { cached: bool, reason: String },
    Built { binary_sha256: String, cached: bool, secs: u64 },
    Running { pid: u32, argv: Vec<String> },
    Log { stream: LogStream, lines: Vec<String> },
    Progress { phase: String, detail: String },
    Verdict { verdict: Verdict },
    Artifact { meta: ArtifactMeta },
    Done { outcome: Outcome },
    /// Sent to attached readers, never journaled.
    Heartbeat { state: JobState, seq_high: u64 },
}

/// One journaled event.
#[derive(Debug, Clone, PartialEq, Eq)]
pub struct BenchEvent {
    pub job: String,
    pub seq: u64,
    pub at_ms: u64,
    pub kind: EventKind,
}

/// An equal optional string.
pub fn copy_opt(o: &Option<String>) -> (r: Option<String>)
    ensures
        r == *o,
{
    match o {
        Some(s) => Some(s.clone()),
        None => None,
    }
}

/// The same strings in the same order.
pub fn copy_strings(v: &Vec<String>) -> (r: Vec<String>)
    ensures
        r@ == v@,
{
    let mut out: Vec<String> = Vec::new();
    let mut i: usize = 0;
    while i < v.len()
        invariant
            i <= v.len(),
            out@ == v@.subrange(0, i as int),
        decreases v.len() - i,
    {
        out.push(v[i].clone());
        i += 1;
        assert(out@ =~= v@.subrange(0, i as int));
    }
    assert(v@.subrange(0, v@.len() as int) =~= v@);
    out
}

/// The same pairs in the same order.
pub fn copy_pairs(v: &Vec<(String, String)>) -> (r: Vec<(String, String)>)
    ensures
        r@ == v@,
{
    let mut out: Vec<(String, String)> = Vec::new();
    let mut i: usize = 0;
    while i < v.len()
        invariant
            i <= v.len(),
            out@ == v@.subrange(0, i as int),
        decreases v.len() - i,
    {
        out.push((v[i].0.clone(), v[i].1.clone()));
        i += 1;
        assert(out@ =~= v@.subrange(0, i as int));
    }
    assert(v@.subrange(0, v@.len() as int) =~= v@);
    out
}

impl Verdict {
    /// An equal verdict.
    pub fn copy(&self) -> (r: Verdict)
        ensures
            r == *self,
    {
        Verdict { kind: self.kind, text: self.text.clone() }
    }
}

/// An equal optional verdict.
pub fn copy_verdict(o: &Option<Verdict>) -> (r: Option<Verdict>)
    ensures
        r == *o,
{
    match o {
        Some(v) => Some(v.copy()),
        None => None,
    }
}

impl Outcome {
    /// An equal outcome.
    pub fn copy(&self) -> (r: Outcome)
        ensures
            r == *self,
    {
        match self {
            Outcome::Completed { exit_code, verdict, record, signature } => Outcome::Completed {
                exit_code: *exit_code,
                verdict: copy_verdict(verdict),
                record: copy_opt(record),
                signature: copy_opt(signature),
            },
            Outcome::Failed { stage, reason } => Outcome::Failed {
                stage: *stage,
                reason: reason.clone(),
            },
            Outcome::TimedOut { stage, after_s } => Outcome::TimedOut {
                stage: *stage,
                after_s: *after_s,
            },
            Outcome::Cancelled { by } => Outcome::Cancelled { by: *by },
            Outcome::Orphaned { reason } => Outcome::Orphaned { reason: reason.clone() },
        }
    }
}

/// An equal optional outcome.
pub fn copy_outcome(o: &Option<Outcome>) -> (r: Option<Outcome>)
    ensures
        r == *o,
{
    match o {
        Some(x) => Some(x.copy()),
        None => None,
    }
}

impl ArtifactMeta {
    /// An equal description.
    pub fn copy(&self) -> (r: ArtifactMeta)
        ensures
            r == *self,
    {
        ArtifactMeta {
            name: self.name.clone(),
            relative_path: self.relative_path.clone(),
            bytes: self.bytes,
            sha256: self.sha256.clone(),
            kind: self.kind,
        }
    }
}

} // verus!
