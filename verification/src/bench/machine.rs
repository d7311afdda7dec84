//! One job's life, step by step.
//!
//! Queued → Preparing (the commit is here, and published) → Building (a
//! cached binary for this exact commit, or a fresh build) → Running (the
//! gate as a child, its output to a file) → Collecting (the records it
//! wrote) → Done. Whoever drives a [`Machine`] performs the action it names
//! — a question to git, a build, a write to the store — and hands the answer
//! back; nothing here touches any of these. Every transition is written to
//! the record, and every event to the journal, before the next step begins.
use crate::bench::event::{
    copy_pairs, copy_strings, copy_verdict, ArtifactKind, ArtifactMeta, EventKind,
    JobState, Outcome, Verdict,
};
use crate::bench::job::{below, brief_sha, short_sha, JobRecord, JobStore};
use crate::keyed::keyed;
use crate::node::NodeId;
use crate::text;
use vstd::prelude::*;

verus! {

/// A binary already built for a commit, verified against its provenance.
#[derive(Debug, Clone, PartialEq, Eq)]
pub struct CachedBinary {
    pub path: String,
    pub sha256: String,
}

/// Why a cache lookup did not hit.
#[derive(Debug, Clone, PartialEq, Eq)]
pub enum CacheMiss {
    NoBuild,
    NoProvenance,
    /// Provenance names another commit (a copied directory, a rename).
    WrongSha(String),
    /// The bytes on disk do not hash to what provenance recorded.
    HashMismatch,
}

/// A finished build.
#[derive(Debug, Clone, PartialEq, Eq)]
pub struct BuildResult {
    pub binary: CachedBinary,
    pub secs: u64,
}

/// A spawned child.
#[derive(Debug, Clone, Copy, PartialEq, Eq, Structural)]
pub struct ChildHandle {
    pub pid: u32,
    pub start_ticks: u64,
}

/// How the run phase ended.
#[derive(Debug, Clone, PartialEq, Eq)]
pub enum RunEnd {
    Exited { code: i32, verdict: Option<Verdict> },
    /// No output for the stall timeout.
    Stalled { after_s: u64 },
    /// Past the run ceiling.
    TimedOut { after_s: u64 },
    Cancelled,
}

/// The parameters of one run, rendered by the node.
#[derive(Debug, Clone, PartialEq, Eq)]
pub struct RunPlan {
    pub argv: Vec<String>,
    pub cwd: String,
    pub env: Vec<(String, String)>,
    pub log_path: String,
    pub stall_timeout_s: u64,
    pub max_run_s: u64,
}

/// What a job's life depends on besides the job.
#[derive(Debug, Clone)]
pub struct Ctx {
    pub store: JobStore,
    /// The node running the job, for `Cancelled { by }`.
    pub local: NodeId,
    pub hardware: String,
    pub child_env: Vec<(String, String)>,
    pub stall_timeout_s: u64,
    pub allow_unpublished: bool,
    /// Render `--serve-reuse --serve-lease-owner <agent pid>` into the run.
    pub serve_reuse: bool,
    pub agent_pid: u32,
}

/// Where a job's life stands: which answer it waits for.
#[derive(Debug, Clone, Copy, PartialEq, Eq, Structural)]
pub enum Phase {
    EnteringPrepare,
    AskedCommit,
    Fetching,
    AskedAgain,
    AskedPublished,
    AnnouncedCommit,
    CheckingOut,
    EnteringBuild,
    LookingUp,
    AnnouncedHit,
    AnnouncedMiss,
    Compiling,
    AnnouncedBuilt,
    KeepingBinary,
    SyncingRecipes,
    AskedGates,
    AskedParams,
    Snapshotting,
    Spawning,
    EnteringRun,
    AnnouncedRun,
    Reattaching,
    Waiting,
    AnnouncedVerdict,
    EnteringCollect,
    Collecting,
    Listing,
    Finishing,
    Closing,
    Ended,
}

/// What is to be done next.
#[derive(Debug, Clone, PartialEq, Eq)]
pub enum Action {
    /// Write the machine's record to the store.
    Save,
    /// Append an event to the journal.
    Append { kind: EventKind },
    /// Is the record's commit here?
    HasCommit,
    /// Fetch from the trusted remote.
    Fetch,
    /// Is the record's commit reachable from the trusted remote?
    Published,
    /// Create or verify the commit's worktree; answer its path.
    Worktree,
    /// Look the commit's binary up in the cache.
    CachedBinary,
    /// Build the commit in the machine's worktree.
    Build,
    /// Have recipes in place for the machine's binary.
    EnsureRecipes,
    /// Which gates does the machine's binary know?
    KnownGates,
    /// Which of the record's parameters does the benchmark not accept?
    BadParams,
    /// What does the benchmark's record directory hold right now?
    RecordState,
    /// Start the machine's plan.
    Spawn,
    /// Wait for the machine's child, under the machine's plan.
    Wait,
    /// Copy what the job wrote, the record's snapshot aside, into the
    /// machine's destination.
    Collect,
    /// Nothing: the job is done.
    End,
}

/// What came of an action.
#[derive(Debug)]
pub enum Answer {
    Stored,
    Flag(Result<bool, String>),
    Unit(Result<(), String>),
    Path(Result<String, String>),
    Cache(Result<Result<CachedBinary, CacheMiss>, String>),
    Built(Result<BuildResult, String>),
    Names(Result<Vec<String>, String>),
    Records(Result<Vec<(String, u128)>, String>),
    Child(Result<ChildHandle, String>),
    Finished(Result<RunEnd, String>),
    Artifacts(Result<Vec<ArtifactMeta>, String>),
}

/// A job being run, or taken up again.
#[derive(Debug, Clone)]
pub struct Machine {
    pub ctx: Ctx,
    pub job: JobRecord,
    pub phase: Phase,
    /// Whether the commit had to be fetched.
    pub fetched: bool,
    pub worktree: String,
    pub binary: CachedBinary,
    /// Whether the binary came from the cache, and how long it took if not.
    pub cached: bool,
    pub build_secs: u64,
    pub plan: RunPlan,
    pub child: ChildHandle,
    pub exit_code: i32,
    pub verdict: Option<Verdict>,
    /// Where collected files go.
    pub dest: String,
    pub artifacts: Vec<ArtifactMeta>,
    /// How many of the artifacts have been journaled.
    pub listed: usize,
}

// ---------------------------------------------------------------------------
// What each answer leads to
// ---------------------------------------------------------------------------

/// Whether an answer is one to the action that the phase waits on.
pub open spec fn fits(p: Phase, a: Answer) -> bool {
    match p {
        Phase::AskedCommit | Phase::AskedAgain | Phase::AskedPublished | Phase::SyncingRecipes =>
        a is Flag,
        Phase::Fetching => a is Unit,
        Phase::CheckingOut | Phase::Reattaching => a is Path,
        Phase::LookingUp => a is Cache,
        Phase::Compiling => a is Built,
        Phase::AskedGates | Phase::AskedParams => a is Names,
        Phase::Snapshotting => a is Records,
        Phase::Spawning => a is Child,
        Phase::Waiting => a is Finished,
        Phase::Collecting => a is Artifacts,
        _ => a is Stored,
    }
}

/// Nothing but the phase differs.
pub open spec fn moves(a: Machine, b: Machine, p: Phase) -> bool {
    b == (Machine { phase: p, ..a })
}

/// The record is in a new state, and is to be written.
pub open spec fn enters(
    a: Machine,
    b: Machine,
    act: Action,
    p: Phase,
    state: JobState,
    now_ms: u64,
) -> bool {
    &&& act == Action::Save
    &&& b == (Machine {
        phase: p,
        job: JobRecord { state, updated_at_s: now_ms / 1000, ..a.job },
        ..a
    })
}

/// The job ends: its record holds the outcome and no child, and the outcome
/// is to be journaled.
pub open spec fn ends(a: Machine, b: Machine, act: Action, outcome: Outcome) -> bool {
    &&& act == (Action::Append { kind: EventKind::Done { outcome } })
    &&& b == (Machine {
        phase: Phase::Finishing,
        job: JobRecord {
            child_pid: None,
            child_start_ticks: None,
            outcome: Some(outcome),
            ..a.job
        },
        ..a
    })
}

/// The job ends because a stage could not be finished.
pub open spec fn fails(
    a: Machine,
    b: Machine,
    act: Action,
    stage: JobState,
    reason: Seq<char>,
) -> bool {
    &&& b.job.outcome matches Some(o)
    &&& ends(a, b, act, o)
    &&& o matches Outcome::Failed { stage: s, reason: r }
    &&& s == stage
    &&& r@ == reason
}

/// Why a cached binary was not used.
pub open spec fn miss_text(m: CacheMiss, sha: Seq<char>) -> Seq<char> {
    match m {
        CacheMiss::NoBuild => "no build for this commit"@,
        CacheMiss::NoProvenance => "a build directory with no provenance"@,
        CacheMiss::WrongSha(s) => "provenance names "@ + s@ + ", not "@ + brief_sha(sha),
        CacheMiss::HashMismatch => "binary hash does not match its provenance"@,
    }
}

/// The `--param` arguments of the first `n` parameters.
pub open spec fn param_args(params: Seq<(String, String)>, n: int) -> Seq<Seq<char>>
    decreases n,
{
    if n <= 0 {
        Seq::empty()
    } else {
        param_args(params, n - 1).push("--param"@).push(
            params[n - 1].0@ + "="@ + params[n - 1].1@,
        )
    }
}

/// The arguments that name a checkpoint.
pub open spec fn checkpoint_args(checkpoint: Option<String>) -> Seq<Seq<char>> {
    match checkpoint {
        Some(c) => seq!["--checkpoint"@, c@],
        None => Seq::empty(),
    }
}

/// The command line of a run, rendered from the node's own configuration and
/// the validated submission.
pub open spec fn run_args(ctx: Ctx, job: JobRecord, binary: Seq<char>) -> Seq<Seq<char>> {
    let base = seq![
        binary,
        "benchmark"@,
        "run"@,
        job.spec.gate@,
        "--pull-request-gate"@,
        "--hardware"@,
        ctx.hardware@,
        "--yes"@,
    ];
    let reuse = if ctx.serve_reuse {
        seq!["--serve-reuse"@, "--serve-lease-owner"@, text::dec(ctx.agent_pid as nat)]
    } else {
        Seq::empty()
    };
    base + reuse + checkpoint_args(job.spec.checkpoint) + param_args(job.spec.params@, job.spec.params@.len() as int)
}

/// The plan of a run with these arguments.
pub open spec fn planned(
    m: Machine,
    worktree: Seq<char>,
    args: Seq<Seq<char>>,
    p: RunPlan,
) -> bool {
    &&& text::views(p.argv@) == args
    &&& p.cwd@ == worktree
    &&& p.env@ == m.ctx.child_env@
    &&& p.log_path@ == below(below(m.ctx.store.base(), m.job.id@), "child.log"@)
    &&& p.stall_timeout_s == m.ctx.stall_timeout_s
    &&& p.max_run_s == m.job.spec.max_run_s
}

/// The path of the first artifact of a kind.
pub open spec fn first_of(v: Seq<ArtifactMeta>, kind: ArtifactKind, from: int) -> Option<String>
    decreases v.len() - from,
{
    if from < 0 || from >= v.len() {
        None
    } else if v[from].kind == kind {
        Some(v[from].relative_path)
    } else {
        first_of(v, kind, from + 1)
    }
}

/// The end of a run whose artifacts are all journaled: a child that reports
/// success but wrote no record has failed.
pub open spec fn concludes(a: Machine, b: Machine, act: Action) -> bool {
    let record = first_of(a.artifacts@, ArtifactKind::Record, 0);
    let signature = first_of(a.artifacts@, ArtifactKind::Signature, 0);
    if a.exit_code == 0 && record is None {
        fails(
            a,
            b,
            act,
            JobState::Collecting,
            "the child exited 0 but wrote no gate record"@,
        )
    } else {
        ends(
            a,
            b,
            act,
            Outcome::Completed { exit_code: a.exit_code, verdict: a.verdict, record, signature },
        )
    }
}

/// The next artifact is journaled, or the run is concluded.
pub open spec fn lists(a: Machine, b: Machine, act: Action) -> bool {
    if a.listed < a.artifacts@.len() {
        &&& act == (Action::Append {
            kind: EventKind::Artifact { meta: a.artifacts@[a.listed as int] },
        })
        &&& b == (Machine { phase: Phase::Listing, listed: (a.listed + 1) as usize, ..a })
    } else {
        concludes(a, b, act)
    }
}

/// What follows an answer about the commit's publication.
pub open spec fn announces_commit(a: Machine, b: Machine, act: Action) -> bool {
    &&& act == (Action::Append {
        kind: EventKind::Preparing { sha: a.job.spec.sha, fetched: a.fetched },
    })
    &&& moves(a, b, Phase::AnnouncedCommit)
}

/// What follows once the commit is here.
pub open spec fn commit_here(a: Machine, b: Machine, act: Action, fetched: bool) -> bool {
    let c = Machine { fetched, ..a };
    if a.ctx.allow_unpublished {
        announces_commit(c, b, act)
    } else {
        act == Action::Published && moves(c, b, Phase::AskedPublished)
    }
}

/// What each answer leads to: the machine after it, and the next action.
/// `cancelled` says whether the job has been asked to end, `now_ms` is the
/// clock, `seq_high` the highest journaled number.
pub open spec fn follows(
    before: Machine,
    answer: Answer,
    cancelled: bool,
    now_ms: u64,
    seq_high: u64,
    b: Machine,
    act: Action,
) -> bool {
    let a = Machine { job: JobRecord { seq_high, ..before.job }, ..before };
    let sha = a.job.spec.sha@;
    match (before.phase, answer) {
        (Phase::EnteringPrepare, Answer::Stored) => act == Action::HasCommit && moves(
            a,
            b,
            Phase::AskedCommit,
        ),
        (Phase::AskedCommit, Answer::Flag(r)) => match r {
            Ok(true) => commit_here(a, b, act, false),
            Ok(false) => act == Action::Fetch && moves(a, b, Phase::Fetching),
            Err(e) => fails(a, b, act, JobState::Preparing, e@),
        },
        (Phase::Fetching, Answer::Unit(r)) => match r {
            Ok(_) => act == Action::HasCommit && moves(a, b, Phase::AskedAgain),
            Err(e) => fails(a, b, act, JobState::Preparing, "fetch failed: "@ + e@),
        },
        (Phase::AskedAgain, Answer::Flag(r)) => match r {
            Ok(true) => commit_here(a, b, act, true),
            Ok(false) => fails(
                a,
                b,
                act,
                JobState::Preparing,
                "commit "@ + sha + " is not on the remote"@,
            ),
            Err(e) => fails(a, b, act, JobState::Preparing, e@),
        },
        (Phase::AskedPublished, Answer::Flag(r)) => match r {
            Ok(true) => announces_commit(a, b, act),
            Ok(false) => fails(
                a,
                b,
                act,
                JobState::Preparing,
                "commit "@ + sha
                    + " is not reachable from the trusted remote; push it first (or set allow_unpublished_shas on this node)"@,
            ),
            Err(e) => fails(a, b, act, JobState::Preparing, e@),
        },
        (Phase::AnnouncedCommit, Answer::Stored) => act == Action::Worktree && moves(
            a,
            b,
            Phase::CheckingOut,
        ),
        (Phase::CheckingOut, Answer::Path(r)) => match r {
            Ok(path) => {
                let c = Machine { worktree: path, ..a };
                if cancelled {
                    ends(c, b, act, Outcome::Cancelled { by: a.ctx.local })
                } else {
                    enters(c, b, act, Phase::EnteringBuild, JobState::Building, now_ms)
                }
            },
            Err(e) => fails(a, b, act, JobState::Preparing, "worktree: "@ + e@),
        },
        (Phase::EnteringBuild, Answer::Stored) => act == Action::CachedBinary && moves(
            a,
            b,
            Phase::LookingUp,
        ),
        (Phase::LookingUp, Answer::Cache(r)) => match r {
            Ok(Ok(binary)) => {
                &&& act matches Action::Append { kind: EventKind::Build { cached, reason } }
                &&& cached
                &&& reason@ == "cache hit for "@ + brief_sha(sha)
                &&& b == (Machine {
                    phase: Phase::AnnouncedHit,
                    binary,
                    cached: true,
                    build_secs: 0,
                    ..a
                })
            },
            Ok(Err(miss)) => {
                &&& act matches Action::Append { kind: EventKind::Build { cached, reason } }
                &&& !cached
                &&& reason@ == miss_text(miss, sha)
                &&& moves(a, b, Phase::AnnouncedMiss)
            },
            Err(e) => fails(a, b, act, JobState::Building, e@),
        },
        (Phase::AnnouncedMiss, Answer::Stored) => act == Action::Build && moves(
            a,
            b,
            Phase::Compiling,
        ),
        (Phase::Compiling, Answer::Built(r)) => match r {
            Ok(built) => {
                &&& act == (Action::Append {
                    kind: EventKind::Built {
                        binary_sha256: built.binary.sha256,
                        cached: false,
                        secs: built.secs,
                    },
                })
                &&& b == (Machine {
                    phase: Phase::AnnouncedBuilt,
                    binary: built.binary,
                    cached: false,
                    build_secs: built.secs,
                    ..a
                })
            },
            Err(e) => if cancelled {
                ends(a, b, act, Outcome::Cancelled { by: a.ctx.local })
            } else {
                fails(a, b, act, JobState::Building, e@)
            },
        },
        (Phase::AnnouncedHit, Answer::Stored) => {
            &&& act == (Action::Append {
                kind: EventKind::Built { binary_sha256: a.binary.sha256, cached: true, secs: 0 },
            })
            &&& moves(a, b, Phase::AnnouncedBuilt)
        },
        (Phase::AnnouncedBuilt, Answer::Stored) => {
            &&& act == Action::Save
            &&& b == (Machine {
                phase: Phase::KeepingBinary,
                job: JobRecord { binary_sha256: Some(a.binary.sha256), ..a.job },
                ..a
            })
        },
        (Phase::KeepingBinary, Answer::Stored) => if cancelled {
            ends(a, b, act, Outcome::Cancelled { by: a.ctx.local })
        } else {
            act == Action::EnsureRecipes && moves(a, b, Phase::SyncingRecipes)
        },
        (Phase::SyncingRecipes, Answer::Flag(r)) => match r {
            Ok(_) => act == Action::KnownGates && moves(a, b, Phase::AskedGates),
            Err(e) => fails(a, b, act, JobState::Building, "recipes: "@ + e@),
        },
        (Phase::AskedGates, Answer::Names(r)) => match r {
            Ok(known) => if text::views(known@).contains(a.job.spec.gate@) {
                act == Action::BadParams && moves(a, b, Phase::AskedParams)
            } else {
                fails(
                    a,
                    b,
                    act,
                    JobState::Building,
                    "gate "@ + a.job.spec.gate@ + " is unknown to the binary at "@ + brief_sha(sha)
                        + "; it knows: "@ + text::joined(text::views(known@), ", "@),
                )
            },
            Err(e) => fails(a, b, act, JobState::Building, e@),
        },
        (Phase::AskedParams, Answer::Names(r)) => match r {
            Ok(bad) => if bad@.len() == 0 {
                &&& act == Action::RecordState
                &&& planned(a, a.worktree@, run_args(a.ctx, a.job, a.binary.path@), b.plan)
                &&& b == (Machine { phase: Phase::Snapshotting, plan: b.plan, ..a })
            } else {
                fails(
                    a,
                    b,
                    act,
                    JobState::Building,
                    "params not accepted by "@ + a.job.spec.gate@ + ": "@ + text::joined(
                        text::views(bad@),
                        ", "@,
                    ),
                )
            },
            Err(e) => fails(a, b, act, JobState::Building, e@),
        },
        (Phase::Snapshotting, Answer::Records(r)) => match r {
            Ok(records_before) => {
                &&& act == Action::Spawn
                &&& b == (Machine {
                    phase: Phase::Spawning,
                    job: JobRecord { records_before, ..a.job },
                    ..a
                })
            },
            Err(e) => fails(a, b, act, JobState::Running, "reading the record dir: "@ + e@),
        },
        (Phase::Spawning, Answer::Child(r)) => match r {
            Ok(child) => {
                let c = Machine {
                    child,
                    job: JobRecord {
                        child_pid: Some(child.pid),
                        child_start_ticks: Some(child.start_ticks),
                        ..a.job
                    },
                    ..a
                };
                enters(c, b, act, Phase::EnteringRun, JobState::Running, now_ms)
            },
            Err(e) => fails(a, b, act, JobState::Running, "spawn: "@ + e@),
        },
        (Phase::EnteringRun, Answer::Stored) => {
            &&& act matches Action::Append { kind: EventKind::Running { pid, argv } }
            &&& pid == a.child.pid
            &&& argv@ == a.plan.argv@
            &&& moves(a, b, Phase::AnnouncedRun)
        },
        (Phase::AnnouncedRun, Answer::Stored) => act == Action::Wait && moves(a, b, Phase::Waiting),
        (Phase::Reattaching, Answer::Path(r)) => match r {
            Ok(path) => {
                &&& act == Action::Wait
                &&& planned(a, path@, Seq::empty(), b.plan)
                &&& b == (Machine { phase: Phase::Waiting, worktree: path, plan: b.plan, ..a })
            },
            Err(e) => {
                &&& b.job.outcome matches Some(o)
                &&& ends(a, b, act, o)
                &&& o matches Outcome::Orphaned { reason }
                &&& reason@ == "worktree: "@ + e@
            },
        },
        (Phase::Waiting, Answer::Finished(r)) => match r {
            Ok(RunEnd::Exited { code, verdict }) => {
                let c = Machine { exit_code: code, verdict, ..a };
                match verdict {
                    Some(v) => {
                        &&& act == (Action::Append { kind: EventKind::Verdict { verdict: v } })
                        &&& moves(c, b, Phase::AnnouncedVerdict)
                    },
                    None => enters(
                        c,
                        b,
                        act,
                        Phase::EnteringCollect,
                        JobState::Collecting,
                        now_ms,
                    ),
                }
            },
            Ok(RunEnd::Stalled { after_s }) | Ok(RunEnd::TimedOut { after_s }) => ends(
                a,
                b,
                act,
                Outcome::TimedOut { stage: JobState::Running, after_s },
            ),
            Ok(RunEnd::Cancelled) => ends(a, b, act, Outcome::Cancelled { by: a.ctx.local }),
            Err(e) => fails(a, b, act, JobState::Running, e@),
        },
        (Phase::AnnouncedVerdict, Answer::Stored) => enters(
            a,
            b,
            act,
            Phase::EnteringCollect,
            JobState::Collecting,
            now_ms,
        ),
        (Phase::EnteringCollect, Answer::Stored) => {
            &&& act == Action::Collect
            &&& b.dest@ == below(below(a.ctx.store.base(), a.job.id@), "artifacts"@)
            &&& b == (Machine { phase: Phase::Collecting, dest: b.dest, ..a })
        },
        (Phase::Collecting, Answer::Artifacts(r)) => match r {
            Ok(artifacts) => lists(Machine { artifacts, listed: 0, ..a }, b, act),
            Err(e) => fails(a, b, act, JobState::Collecting, e@),
        },
        (Phase::Listing, Answer::Stored) => lists(a, b, act),
        (Phase::Finishing, Answer::Stored) => enters(
            a,
            b,
            act,
            Phase::Closing,
            JobState::Done,
            now_ms,
        ),
        (Phase::Closing, Answer::Stored) => act == Action::End && moves(a, b, Phase::Ended),
        (Phase::Ended, Answer::Stored) => act == Action::End && moves(a, b, Phase::Ended),
        _ => true,
    }
}

// ---------------------------------------------------------------------------
// The steps
// ---------------------------------------------------------------------------

fn miss_reason(m: &CacheMiss, sha: &str) -> (s: String)
    ensures
        s@ == miss_text(*m, sha@),
{
    match m {
        CacheMiss::NoBuild => text::copy("no build for this commit"),
        CacheMiss::NoProvenance => text::copy("a build directory with no provenance"),
        CacheMiss::WrongSha(named) => {
            let mut s = text::cat2("provenance names ", named);
            s.append(", not ");
            let short = short_sha(sha);
            s.append(&short);
            s
        },
        CacheMiss::HashMismatch => text::copy("binary hash does not match its provenance"),
    }
}

fn argv_for(ctx: &Ctx, job: &JobRecord, binary: &str) -> (v: Vec<String>)
    ensures
        text::views(v@) == run_args(*ctx, *job, binary@),
{
    let mut v: Vec<String> = Vec::new();
    v.push(text::copy(binary));
    v.push(text::copy("benchmark"));
    v.push(text::copy("run"));
    v.push(text::copy(&job.spec.gate));
    v.push(text::copy("--pull-request-gate"));
    v.push(text::copy("--hardware"));
    v.push(text::copy(&ctx.hardware));
    v.push(text::copy("--yes"));
    let ghost base = seq![
        binary@,
        "benchmark"@,
        "run"@,
        job.spec.gate@,
        "--pull-request-gate"@,
        "--hardware"@,
        ctx.hardware@,
        "--yes"@,
    ];
    assert(text::views(v@) =~= base);
    let ghost reuse = if ctx.serve_reuse {
        seq!["--serve-reuse"@, "--serve-lease-owner"@, text::dec(ctx.agent_pid as nat)]
    } else {
        Seq::empty()
    };
    if ctx.serve_reuse {
        v.push(text::copy("--serve-reuse"));
        v.push(text::copy("--serve-lease-owner"));
        v.push(text::decimal(ctx.agent_pid as u64));
    }
    assert(text::views(v@) =~= base + reuse);
    let ghost checkpoint = checkpoint_args(job.spec.checkpoint);
    if let Some(c) = &job.spec.checkpoint {
        v.push(text::copy("--checkpoint"));
        v.push(text::copy(c));
    }
    assert(text::views(v@) =~= base + reuse + checkpoint);
    let ghost head = base + reuse + checkpoint;
    let mut i: usize = 0;
    assert(head + param_args(job.spec.params@, 0) =~= head);
    while i < job.spec.params.len()
        invariant
            i <= job.spec.params.len(),
            text::views(v@) == head + param_args(job.spec.params@, i as int),
        decreases job.spec.params.len() - i,
    {
        let ghost was = text::views(v@);
        let pair = text::cat3(&job.spec.params[i].0, "=", &job.spec.params[i].1);
        v.push(text::copy("--param"));
        v.push(pair);
        assert(text::views(v@) =~= was.push("--param"@).push(pair@));
        assert(text::views(v@) =~= head + param_args(job.spec.params@, i + 1));
        i += 1;
    }
    v
}

fn first_path(v: &Vec<ArtifactMeta>, kind: ArtifactKind) -> (r: Option<String>)
    ensures
        r == first_of(v@, kind, 0),
{
    let mut i: usize = 0;
    while i < v.len()
        invariant
            i <= v.len(),
            first_of(v@, kind, 0) == first_of(v@, kind, i as int),
        decreases v.len() - i,
    {
        if v[i].kind == kind {
            return Some(v[i].relative_path.clone());
        }
        i += 1;
    }
    None
}

fn listed_in(v: &Vec<String>, s: &str) -> (r: bool)
    ensures
        r == text::views(v@).contains(s@),
{
    let mut i: usize = 0;
    while i < v.len()
        invariant
            i <= v.len(),
            forall|k: int| 0 <= k < i ==> text::views(v@)[k] != s@,
        decreases v.len() - i,
    {
        if text::same(&v[i], s) {
            assert(text::views(v@)[i as int] == s@);
            return true;
        }
        i += 1;
    }
    false
}

impl Machine {
    fn end(&mut self, outcome: Outcome) -> (act: Action)
        ensures
            ends(*old(self), *final(self), act, outcome),
    {
        self.job.child_pid = None;
        self.job.child_start_ticks = None;
        self.job.outcome = Some(outcome.copy());
        self.phase = Phase::Finishing;
        Action::Append { kind: EventKind::Done { outcome } }
    }

    fn fail(&mut self, stage: JobState, reason: String) -> (act: Action)
        ensures
            fails(*old(self), *final(self), act, stage, reason@),
    {
        self.end(Outcome::Failed { stage, reason })
    }

    fn enter(&mut self, phase: Phase, state: JobState, now_ms: u64) -> (act: Action)
        ensures
            enters(*old(self), *final(self), act, phase, state, now_ms),
    {
        self.job.state = state;
        self.job.updated_at_s = now_ms / 1000;
        self.phase = phase;
        Action::Save
    }

    fn go(&mut self, phase: Phase, act: Action) -> (r: Action)
        ensures
            r == act,
            moves(*old(self), *final(self), phase),
    {
        self.phase = phase;
        act
    }

    fn announce_commit(&mut self) -> (act: Action)
        ensures
            announces_commit(*old(self), *final(self), act),
    {
        self.phase = Phase::AnnouncedCommit;
        Action::Append {
            kind: EventKind::Preparing { sha: self.job.spec.sha.clone(), fetched: self.fetched },
        }
    }

    fn have_commit(&mut self, fetched: bool) -> (act: Action)
        ensures
            commit_here(*old(self), *final(self), act, fetched),
    {
        self.fetched = fetched;
        if self.ctx.allow_unpublished {
            self.announce_commit()
        } else {
            self.go(Phase::AskedPublished, Action::Published)
        }
    }

    fn plan_run(&self, worktree: &str, argv: Vec<String>) -> (p: RunPlan)
        ensures
            planned(*self, worktree@, text::views(argv@), p),
    {
        RunPlan {
            argv,
            cwd: text::copy(worktree),
            env: copy_pairs(&self.ctx.child_env),
            log_path: self.ctx.store.child_log_path(&self.job.id),
            stall_timeout_s: self.ctx.stall_timeout_s,
            max_run_s: self.job.spec.max_run_s as u64,
        }
    }

    fn conclude(&mut self) -> (act: Action)
        ensures
            concludes(*old(self), *final(self), act),
    {
        let record = first_path(&self.artifacts, ArtifactKind::Record);
        let signature = first_path(&self.artifacts, ArtifactKind::Signature);
        if self.exit_code == 0 && record.is_none() {
            return self.fail(
                JobState::Collecting,
                text::copy("the child exited 0 but wrote no gate record"),
            );
        }
        let verdict = copy_verdict(&self.verdict);
        self.end(Outcome::Completed { exit_code: self.exit_code, verdict, record, signature })
    }

    fn list_next(&mut self) -> (act: Action)
        ensures
            lists(*old(self), *final(self), act),
    {
        if self.listed < self.artifacts.len() {
            let meta = self.artifacts[self.listed].copy();
            self.listed = self.listed + 1;
            self.phase = Phase::Listing;
            Action::Append { kind: EventKind::Artifact { meta } }
        } else {
            self.conclude()
        }
    }

    fn after_lookup(&mut self, r: Result<Result<CachedBinary, CacheMiss>, String>) -> (act: Action)
        requires
            old(self).phase == Phase::LookingUp,
        ensures
            follows(
                *old(self),
                Answer::Cache(r),
                false,
                0,
                old(self).job.seq_high,
                *final(self),
                act,
            ),
    {
        match r {
            Ok(Ok(binary)) => {
                let short = short_sha(&self.job.spec.sha);
                let reason = text::cat2("cache hit for ", &short);
                self.binary = binary;
                self.cached = true;
                self.build_secs = 0;
                self.go(
                    Phase::AnnouncedHit,
                    Action::Append { kind: EventKind::Build { cached: true, reason } },
                )
            },
            Ok(Err(miss)) => {
                let reason = miss_reason(&miss, &self.job.spec.sha);
                self.go(
                    Phase::AnnouncedMiss,
                    Action::Append { kind: EventKind::Build { cached: false, reason } },
                )
            },
            Err(e) => self.fail(JobState::Building, e),
        }
    }

    fn after_build(&mut self, r: Result<BuildResult, String>, cancelled: bool) -> (act: Action)
        requires
            old(self).phase == Phase::Compiling,
        ensures
            follows(
                *old(self),
                Answer::Built(r),
                cancelled,
                0,
                old(self).job.seq_high,
                *final(self),
                act,
            ),
    {
        match r {
            Ok(built) => {
                let binary_sha256 = built.binary.sha256.clone();
                let secs = built.secs;
                self.binary = built.binary;
                self.cached = false;
                self.build_secs = secs;
                self.go(
                    Phase::AnnouncedBuilt,
                    Action::Append {
                        kind: EventKind::Built { binary_sha256, cached: false, secs },
                    },
                )
            },
            Err(e) => {
                if cancelled {
                    let by = self.ctx.local;
                    self.end(Outcome::Cancelled { by })
                } else {
                    self.fail(JobState::Building, e)
                }
            },
        }
    }

    fn after_gates(&mut self, r: Result<Vec<String>, String>) -> (act: Action)
        requires
            old(self).phase == Phase::AskedGates,
        ensures
            follows(
                *old(self),
                Answer::Names(r),
                false,
                0,
                old(self).job.seq_high,
                *final(self),
                act,
            ),
    {
        match r {
            Ok(known) => {
                if listed_in(&known, &self.job.spec.gate) {
                    self.go(Phase::AskedParams, Action::BadParams)
                } else {
                    let mut why = text::cat2("gate ", &self.job.spec.gate);
                    why.append(" is unknown to the binary at ");
                    let short = short_sha(&self.job.spec.sha);
                    why.append(&short);
                    why.append("; it knows: ");
                    let names = text::join(&known, ", ");
                    why.append(&names);
                    self.fail(JobState::Building, why)
                }
            },
            Err(e) => self.fail(JobState::Building, e),
        }
    }

    fn after_params(&mut self, r: Result<Vec<String>, String>) -> (act: Action)
        requires
            old(self).phase == Phase::AskedParams,
        ensures
            follows(
                *old(self),
                Answer::Names(r),
                false,
                0,
                old(self).job.seq_high,
                *final(self),
                act,
            ),
    {
        match r {
            Ok(bad) => {
                if bad.len() == 0 {
                    let argv = argv_for(&self.ctx, &self.job, &self.binary.path);
                    let plan = self.plan_run(&self.worktree, argv);
                    self.plan = plan;
                    self.go(Phase::Snapshotting, Action::RecordState)
                } else {
                    let mut why = text::cat2("params not accepted by ", &self.job.spec.gate);
                    why.append(": ");
                    let names = text::join(&bad, ", ");
                    why.append(&names);
                    self.fail(JobState::Building, why)
                }
            },
            Err(e) => self.fail(JobState::Building, e),
        }
    }

    fn after_wait(&mut self, r: Result<RunEnd, String>, now_ms: u64) -> (act: Action)
        requires
            old(self).phase == Phase::Waiting,
        ensures
            follows(
                *old(self),
                Answer::Finished(r),
                false,
                now_ms,
                old(self).job.seq_high,
                *final(self),
                act,
            ),
    {
        match r {
            Ok(RunEnd::Exited { code, verdict }) => {
                self.exit_code = code;
                let said = copy_verdict(&verdict);
                self.verdict = verdict;
                match said {
                    Some(verdict) => self.go(
                        Phase::AnnouncedVerdict,
                        Action::Append { kind: EventKind::Verdict { verdict } },
                    ),
                    None => self.enter(Phase::EnteringCollect, JobState::Collecting, now_ms),
                }
            },
            Ok(RunEnd::Stalled { after_s }) => self.end(
                Outcome::TimedOut { stage: JobState::Running, after_s },
            ),
            Ok(RunEnd::TimedOut { after_s }) => self.end(
                Outcome::TimedOut { stage: JobState::Running, after_s },
            ),
            Ok(RunEnd::Cancelled) => {
                let by = self.ctx.local;
                self.end(Outcome::Cancelled { by })
            },
            Err(e) => self.fail(JobState::Running, e),
        }
    }

    fn after_stored(&mut self, cancelled: bool, now_ms: u64) -> (act: Action)
        requires
            fits(old(self).phase, Answer::Stored),
        ensures
            follows(
                *old(self),
                Answer::Stored,
                cancelled,
                now_ms,
                old(self).job.seq_high,
                *final(self),
                act,
            ),
    {
        match self.phase {
            Phase::EnteringPrepare => self.go(Phase::AskedCommit, Action::HasCommit),
            Phase::AnnouncedCommit => self.go(Phase::CheckingOut, Action::Worktree),
            Phase::EnteringBuild => self.go(Phase::LookingUp, Action::CachedBinary),
            Phase::AnnouncedMiss => self.go(Phase::Compiling, Action::Build),
            Phase::AnnouncedHit => {
                let binary_sha256 = self.binary.sha256.clone();
                self.go(
                    Phase::AnnouncedBuilt,
                    Action::Append {
                        kind: EventKind::Built { binary_sha256, cached: true, secs: 0 },
                    },
                )
            },
            Phase::AnnouncedBuilt => {
                self.job.binary_sha256 = Some(self.binary.sha256.clone());
                self.go(Phase::KeepingBinary, Action::Save)
            },
            Phase::KeepingBinary => {
                if cancelled {
                    let by = self.ctx.local;
                    self.end(Outcome::Cancelled { by })
                } else {
                    self.go(Phase::SyncingRecipes, Action::EnsureRecipes)
                }
            },
            Phase::EnteringRun => {
                let argv = copy_strings(&self.plan.argv);
                let pid = self.child.pid;
                self.go(
                    Phase::AnnouncedRun,
                    Action::Append { kind: EventKind::Running { pid, argv } },
                )
            },
            Phase::AnnouncedRun => self.go(Phase::Waiting, Action::Wait),
            Phase::AnnouncedVerdict => self.enter(
                Phase::EnteringCollect,
                JobState::Collecting,
                now_ms,
            ),
            Phase::EnteringCollect => {
                let dest = self.ctx.store.artifacts_dir(&self.job.id);
                self.dest = dest;
                self.go(Phase::Collecting, Action::Collect)
            },
            Phase::Listing => self.list_next(),
            Phase::Finishing => self.enter(Phase::Closing, JobState::Done, now_ms),
            _ => self.go(Phase::Ended, Action::End),
        }
    }

    /// Takes the answer to the last action and names the next. `cancelled`
    /// says whether the job has been asked to end, `now_ms` is the clock,
    /// `seq_high` the highest journaled number.
    pub fn step(&mut self, answer: Answer, cancelled: bool, now_ms: u64, seq_high: u64) -> (act:
        Action)
        requires
            fits(old(self).phase, answer),
        ensures
            follows(*old(self), answer, cancelled, now_ms, seq_high, *final(self), act),
    {
        self.job.seq_high = seq_high;
        match answer {
            Answer::Stored => self.after_stored(cancelled, now_ms),
            Answer::Flag(r) => match self.phase {
                Phase::AskedCommit => match r {
                    Ok(true) => self.have_commit(false),
                    Ok(false) => self.go(Phase::Fetching, Action::Fetch),
                    Err(e) => self.fail(JobState::Preparing, e),
                },
                Phase::AskedAgain => match r {
                    Ok(true) => self.have_commit(true),
                    Ok(false) => {
                        let why = text::cat3(
                            "commit ",
                            &self.job.spec.sha,
                            " is not on the remote",
                        );
                        self.fail(JobState::Preparing, why)
                    },
                    Err(e) => self.fail(JobState::Preparing, e),
                },
                Phase::AskedPublished => match r {
                    Ok(true) => self.announce_commit(),
                    Ok(false) => {
                        let why = text::cat3(
                            "commit ",
                            &self.job.spec.sha,
                            " is not reachable from the trusted remote; push it first (or set allow_unpublished_shas on this node)",
                        );
                        self.fail(JobState::Preparing, why)
                    },
                    Err(e) => self.fail(JobState::Preparing, e),
                },
                _ => match r {
                    Ok(_) => self.go(Phase::AskedGates, Action::KnownGates),
                    Err(e) => {
                        let why = text::cat2("recipes: ", &e);
                        self.fail(JobState::Building, why)
                    },
                },
            },
            Answer::Unit(r) => match r {
                Ok(_) => self.go(Phase::AskedAgain, Action::HasCommit),
                Err(e) => {
                    let why = text::cat2("fetch failed: ", &e);
                    self.fail(JobState::Preparing, why)
                },
            },
            Answer::Path(r) => match (r, self.phase) {
                (Ok(path), Phase::CheckingOut) => {
                    self.worktree = path;
                    if cancelled {
                        let by = self.ctx.local;
                        self.end(Outcome::Cancelled { by })
                    } else {
                        self.enter(Phase::EnteringBuild, JobState::Building, now_ms)
                    }
                },
                (Err(e), Phase::CheckingOut) => {
                    let why = text::cat2("worktree: ", &e);
                    self.fail(JobState::Preparing, why)
                },
                (Ok(path), _) => {
                    let argv: Vec<String> = Vec::new();
                    assert(text::views(argv@) =~= Seq::empty());
                    let plan = self.plan_run(&path, argv);
                    self.plan = plan;
                    self.worktree = path;
                    self.go(Phase::Waiting, Action::Wait)
                },
                (Err(e), _) => {
                    let reason = text::cat2("worktree: ", &e);
                    self.end(Outcome::Orphaned { reason })
                },
            },
            Answer::Cache(r) => self.after_lookup(r),
            Answer::Built(r) => self.after_build(r, cancelled),
            Answer::Names(r) => match self.phase {
                Phase::AskedGates => self.after_gates(r),
                _ => self.after_params(r),
            },
            Answer::Records(r) => match r {
                Ok(records) => {
                    self.job.records_before = records;
                    self.go(Phase::Spawning, Action::Spawn)
                },
                Err(e) => {
                    let why = text::cat2("reading the record dir: ", &e);
                    self.fail(JobState::Running, why)
                },
            },
            Answer::Child(r) => match r {
                Ok(child) => {
                    self.child = child;
                    self.job.child_pid = Some(child.pid);
                    self.job.child_start_ticks = Some(child.start_ticks);
                    self.enter(Phase::EnteringRun, JobState::Running, now_ms)
                },
                Err(e) => {
                    let why = text::cat2("spawn: ", &e);
                    self.fail(JobState::Running, why)
                },
            },
            Answer::Finished(r) => self.after_wait(r, now_ms),
            Answer::Artifacts(r) => match r {
                Ok(artifacts) => {
                    self.artifacts = artifacts;
                    self.listed = 0;
                    self.list_next()
                },
                Err(e) => self.fail(JobState::Collecting, e),
            },
        }
    }
}

// ---------------------------------------------------------------------------
// The ways in
// ---------------------------------------------------------------------------

/// A machine that has done nothing yet.
pub open spec fn untouched(ctx: Ctx, job: JobRecord, phase: Phase, m: Machine) -> bool {
    &&& m.ctx == ctx
    &&& m.job == job
    &&& m.phase == phase
    &&& m.artifacts@.len() == 0
    &&& m.listed == 0
}

fn idle(ctx: Ctx, job: JobRecord, phase: Phase) -> (m: Machine)
    ensures
        untouched(ctx, job, phase, m),
{
    Machine {
        ctx,
        job,
        phase,
        fetched: false,
        worktree: String::new(),
        binary: CachedBinary { path: String::new(), sha256: String::new() },
        cached: false,
        build_secs: 0,
        plan: RunPlan {
            argv: Vec::new(),
            cwd: String::new(),
            env: Vec::new(),
            log_path: String::new(),
            stall_timeout_s: 0,
            max_run_s: 0,
        },
        child: ChildHandle { pid: 0, start_ticks: 0 },
        exit_code: 0,
        verdict: None,
        dest: String::new(),
        artifacts: Vec::new(),
        listed: 0,
    }
}

/// Starts a queued job: its record enters the preparing state.
pub fn run(ctx: Ctx, job: JobRecord, now_ms: u64, seq_high: u64) -> (r: (Machine, Action))
    ensures
        r.1 == Action::Save,
        untouched(
            ctx,
            JobRecord {
                state: JobState::Preparing,
                updated_at_s: now_ms / 1000,
                seq_high,
                ..job
            },
            Phase::EnteringPrepare,
            r.0,
        ),
{
    let mut job = job;
    job.state = JobState::Preparing;
    job.updated_at_s = now_ms / 1000;
    job.seq_high = seq_high;
    (idle(ctx, job, Phase::EnteringPrepare), Action::Save)
}

/// Takes up a job whose child survived a restart of the agent: the child the
/// record names is waited for, and what it wrote is collected exactly as in
/// a fresh run. A record that names no child cannot be taken up.
pub fn resume_running(ctx: Ctx, job: JobRecord) -> (r: (Machine, Action))
    ensures
        match (job.child_pid, job.child_start_ticks) {
            (Some(pid), Some(start_ticks)) => {
                &&& r.1 == Action::Worktree
                &&& untouched(ctx, job, Phase::Reattaching, r.0)
                &&& r.0.child == (ChildHandle { pid, start_ticks })
            },
            _ => {
                &&& exists|m: Machine|
                    #![auto]
                    untouched(ctx, job, Phase::Reattaching, m) && r.0.job.outcome is Some && ends(
                        m,
                        r.0,
                        r.1,
                        r.0.job.outcome.unwrap(),
                    )
                &&& r.0.job.outcome matches Some(Outcome::Orphaned { reason })
                &&& reason@ == "no child recorded"@
            },
        },
{
    let pid = job.child_pid;
    let ticks = job.child_start_ticks;
    let mut m = idle(ctx, job, Phase::Reattaching);
    match (pid, ticks) {
        (Some(pid), Some(start_ticks)) => {
            m.child = ChildHandle { pid, start_ticks };
            (m, Action::Worktree)
        },
        _ => {
            let act = m.end(Outcome::Orphaned { reason: text::copy("no child recorded") });
            (m, act)
        },
    }
}

/// Ends a job that the agent could not take up after a restart.
pub fn orphan(ctx: Ctx, job: JobRecord, reason: &str) -> (r: (Machine, Action))
    ensures
        exists|m: Machine|
            #![auto]
            untouched(ctx, job, Phase::Reattaching, m) && r.0.job.outcome is Some && ends(
                m,
                r.0,
                r.1,
                r.0.job.outcome.unwrap(),
            ),
        r.0.job.outcome matches Some(Outcome::Orphaned { reason: why }) && why@ == reason@,
{
    let mut m = idle(ctx, job, Phase::Reattaching);
    let act = m.end(Outcome::Orphaned { reason: text::copy(reason) });
    (m, act)
}

// ---------------------------------------------------------------------------
// Laws
// ---------------------------------------------------------------------------

/// How far along a phase is.
pub open spec fn rank(p: Phase) -> int {
    match p {
        Phase::EnteringPrepare => 0,
        Phase::AskedCommit => 1,
        Phase::Fetching => 2,
        Phase::AskedAgain => 3,
        Phase::AskedPublished => 4,
        Phase::AnnouncedCommit => 5,
        Phase::CheckingOut => 6,
        Phase::EnteringBuild => 7,
        Phase::LookingUp => 8,
        Phase::AnnouncedHit => 9,
        Phase::AnnouncedMiss => 10,
        Phase::Compiling => 11,
        Phase::AnnouncedBuilt => 12,
        Phase::KeepingBinary => 13,
        Phase::SyncingRecipes => 14,
        Phase::AskedGates => 15,
        Phase::AskedParams => 16,
        Phase::Snapshotting => 17,
        Phase::Spawning => 18,
        Phase::EnteringRun => 19,
        Phase::AnnouncedRun => 20,
        Phase::Reattaching => 21,
        Phase::Waiting => 22,
        Phase::AnnouncedVerdict => 23,
        Phase::EnteringCollect => 24,
        Phase::Collecting => 25,
        Phase::Listing => 26,
        Phase::Finishing => 27,
        Phase::Closing => 28,
        Phase::Ended => 29,
    }
}

/// Law: every answer moves a job on. Until it has ended each step reaches a
/// later phase, or journals one more of its artifacts; no phase is ever
/// entered twice, and so every job ends.
pub proof fn law_every_step_moves_on(
    a: Machine,
    answer: Answer,
    cancelled: bool,
    now_ms: u64,
    seq_high: u64,
    b: Machine,
    act: Action,
)
    requires
        fits(a.phase, answer),
        follows(a, answer, cancelled, now_ms, seq_high, b, act),
        a.phase != Phase::Ended,
    ensures
        rank(b.phase) > rank(a.phase) || (a.phase == Phase::Listing && b.phase == Phase::Listing
            && b.artifacts == a.artifacts && a.listed < b.listed <= a.artifacts@.len()),
{
    assert(a.artifacts@.len() == a.artifacts.len());
}

/// A job's outcome is recorded exactly while it is being closed, and it is
/// done exactly when that is written.
pub open spec fn settled(m: Machine) -> bool {
    &&& (rank(m.phase) >= 27 ==> m.job.outcome is Some && m.job.child_pid is None
        && m.job.child_start_ticks is None)
    &&& (rank(m.phase) >= 28 <==> m.job.state.terminal())
}

/// Law: a job is done when, and only when, its life has ended with an
/// outcome in its record and no child.
pub proof fn law_done_has_an_outcome(
    a: Machine,
    answer: Answer,
    cancelled: bool,
    now_ms: u64,
    seq_high: u64,
    b: Machine,
    act: Action,
)
    requires
        fits(a.phase, answer),
        follows(a, answer, cancelled, now_ms, seq_high, b, act),
        settled(a),
    ensures
        settled(b),
        act == Action::End ==> b.job.state == JobState::Done && b.job.outcome is Some,
        a.phase == Phase::Ended ==> b == (Machine { job: JobRecord { seq_high, ..a.job }, ..a }),
{
}

/// Law: what a job was asked to do is never changed by running it.
pub proof fn law_the_request_is_kept(
    a: Machine,
    answer: Answer,
    cancelled: bool,
    now_ms: u64,
    seq_high: u64,
    b: Machine,
    act: Action,
)
    requires
        fits(a.phase, answer),
        follows(a, answer, cancelled, now_ms, seq_high, b, act),
    ensures
        b.ctx == a.ctx,
        b.job.id == a.job.id,
        b.job.key == a.job.key,
        b.job.sender == a.job.sender,
        b.job.spec == a.job.spec,
        b.job.note == a.job.note,
        b.job.created_at_s == a.job.created_at_s,
{
}

/// What came in at one step: an answer, whether the job was asked to end,
/// the clock, and the highest journaled number.
pub type Input = (Answer, bool, u64, u64);

/// A history: each machine follows from the one before by the step's input,
/// and the step's action is what it named.
pub open spec fn history(ms: Seq<Machine>, ins: Seq<Input>, acts: Seq<Action>) -> bool {
    &&& ms.len() == ins.len() + 1
    &&& acts.len() == ins.len()
    &&& forall|i: int|
        0 <= i < ins.len() ==> fits(ms[i].phase, #[trigger] ins[i].0) && follows(
            ms[i],
            ins[i].0,
            ins[i].1,
            ins[i].2,
            ins[i].3,
            ms[i + 1],
            acts[i],
        )
}

/// At step `j` the commit was confirmed to be here.
pub open spec fn confirmed_here(ms: Seq<Machine>, ins: Seq<Input>, j: int) -> bool {
    &&& (ms[j].phase == Phase::AskedCommit || ms[j].phase == Phase::AskedAgain)
    &&& ins[j].0 == Answer::Flag(Ok(true))
}

/// At step `j` the commit was confirmed to be published.
pub open spec fn confirmed_published(ms: Seq<Machine>, ins: Seq<Input>, j: int) -> bool {
    &&& ms[j].phase == Phase::AskedPublished
    &&& ins[j].0 == Answer::Flag(Ok(true))
}

/// At step `j` the binary was confirmed to know the benchmark.
pub open spec fn confirmed_gate(ms: Seq<Machine>, ins: Seq<Input>, j: int) -> bool {
    &&& ms[j].phase == Phase::AskedGates
    &&& ins[j].0 matches Answer::Names(Ok(known))
    &&& text::views(known@).contains(ms[j].job.spec.gate@)
}

/// What a fresh run has earned by the time it is in a phase.
spec fn earned(ms: Seq<Machine>, ins: Seq<Input>, n: int) -> bool {
    let r = rank(ms[n].phase);
    &&& ms[n].ctx == ms[0].ctx
    &&& ms[n].phase != Phase::Reattaching
    &&& (4 <= r <= 26 ==> exists|j: int| 0 <= j < n && #[trigger] confirmed_here(ms, ins, j))
    &&& (5 <= r <= 26 ==> ms[0].ctx.allow_unpublished || exists|j: int|
        0 <= j < n && #[trigger] confirmed_published(ms, ins, j))
    &&& (16 <= r <= 26 ==> exists|j: int| 0 <= j < n && #[trigger] confirmed_gate(ms, ins, j))
}

proof fn lemma_earned(ms: Seq<Machine>, ins: Seq<Input>, acts: Seq<Action>, n: int)
    requires
        history(ms, ins, acts),
        ms[0].phase == Phase::EnteringPrepare,
        0 <= n < ms.len(),
    ensures
        earned(ms, ins, n),
    decreases n,
{
    if n > 0 {
        lemma_earned(ms, ins, acts, n - 1);
        let j = n - 1;
        assert(fits(ms[j].phase, ins[j].0));
        assert(follows(ms[j], ins[j].0, ins[j].1, ins[j].2, ins[j].3, ms[j + 1], acts[j]));
        assert(ms[j + 1] == ms[n]);
        let r = rank(ms[n].phase);
        let q = rank(ms[j].phase);
        if 4 <= r <= 26 {
            if q < 4 {
                assert(confirmed_here(ms, ins, j));
            }
        }
        if 5 <= r <= 26 && !ms[0].ctx.allow_unpublished {
            if q < 5 {
                assert(confirmed_published(ms, ins, j));
            }
        }
        if 16 <= r <= 26 {
            if q < 16 {
                assert(confirmed_gate(ms, ins, j));
            }
        }
    }
}

/// Law: no child of a fresh run is started unless the commit was confirmed
/// to be here, was confirmed to be published (or the node's operator allows
/// unpublished commits), and its binary was confirmed to know the benchmark.
pub proof fn law_nothing_unpublished_is_run(
    ms: Seq<Machine>,
    ins: Seq<Input>,
    acts: Seq<Action>,
    i: int,
)
    requires
        history(ms, ins, acts),
        ms[0].phase == Phase::EnteringPrepare,
        0 <= i < acts.len(),
        acts[i] == Action::Spawn,
    ensures
        exists|j: int| 0 <= j < i && #[trigger] confirmed_here(ms, ins, j),
        ms[0].ctx.allow_unpublished || exists|j: int|
            0 <= j < i && #[trigger] confirmed_published(ms, ins, j),
        exists|j: int| 0 <= j < i && #[trigger] confirmed_gate(ms, ins, j),
{
    assert(fits(ms[i].phase, ins[i].0));
    assert(follows(ms[i], ins[i].0, ins[i].1, ins[i].2, ins[i].3, ms[i + 1], acts[i]));
    assert(ms[i].phase == Phase::Snapshotting);
    lemma_earned(ms, ins, acts, i);
}

/// Law: an unpublished commit never builds. No build is started unless the
/// commit was confirmed to be published, or the node's operator allows
/// unpublished commits.
pub proof fn law_nothing_unpublished_is_built(
    ms: Seq<Machine>,
    ins: Seq<Input>,
    acts: Seq<Action>,
    i: int,
)
    requires
        history(ms, ins, acts),
        ms[0].phase == Phase::EnteringPrepare,
        0 <= i < acts.len(),
        acts[i] == Action::Build,
    ensures
        ms[0].ctx.allow_unpublished || exists|j: int|
            0 <= j < i && #[trigger] confirmed_published(ms, ins, j),
{
    assert(fits(ms[i].phase, ins[i].0));
    assert(follows(ms[i], ins[i].0, ins[i].1, ins[i].2, ins[i].3, ms[i + 1], acts[i]));
    assert(ms[i].phase == Phase::AnnouncedMiss);
    lemma_earned(ms, ins, acts, i);
}

/// Law: success needs something to show. A job that completed with exit code
/// 0 names a gate record.
pub proof fn law_success_has_a_record(
    a: Machine,
    answer: Answer,
    cancelled: bool,
    now_ms: u64,
    seq_high: u64,
    b: Machine,
    act: Action,
)
    requires
        fits(a.phase, answer),
        follows(a, answer, cancelled, now_ms, seq_high, b, act),
        rank(a.phase) < 27,
        a.job.outcome is None,
    ensures
        b.job.outcome matches Some(Outcome::Completed { exit_code, record, .. }) ==> exit_code != 0
            || record is Some,
{
}

/// The action journals the end of the job.
pub open spec fn journals_done(act: Action) -> bool {
    act matches Action::Append { kind: EventKind::Done { .. } }
}

proof fn lemma_step(ms: Seq<Machine>, ins: Seq<Input>, acts: Seq<Action>, i: int)
    requires
        history(ms, ins, acts),
        0 <= i < ins.len(),
    ensures
        fits(ms[i].phase, ins[i].0),
        follows(ms[i], ins[i].0, ins[i].1, ins[i].2, ins[i].3, ms[i + 1], acts[i]),
        rank(ms[i + 1].phase) >= rank(ms[i].phase),
        ms[i].phase != Phase::Ended ==> rank(ms[i + 1].phase) > rank(ms[i].phase) || ms[i].phase
            == Phase::Listing,
{
    assert(fits(ms[i].phase, ins[i].0));
    if ms[i].phase != Phase::Ended {
        law_every_step_moves_on(
            ms[i],
            ins[i].0,
            ins[i].1,
            ins[i].2,
            ins[i].3,
            ms[i + 1],
            acts[i],
        );
    }
}

proof fn lemma_onward(ms: Seq<Machine>, ins: Seq<Input>, acts: Seq<Action>, i: int, j: int)
    requires
        history(ms, ins, acts),
        0 <= i <= j < ms.len(),
    ensures
        rank(ms[i].phase) <= rank(ms[j].phase),
    decreases j - i,
{
    if i < j {
        lemma_onward(ms, ins, acts, i, j - 1);
        lemma_step(ms, ins, acts, j - 1);
    }
}

/// Law: the end of a job is journaled once. However a run goes, no two of its
/// steps journal an end.
pub proof fn law_done_is_journaled_once(
    ms: Seq<Machine>,
    ins: Seq<Input>,
    acts: Seq<Action>,
    i: int,
    j: int,
)
    requires
        history(ms, ins, acts),
        0 <= i < j < acts.len(),
    ensures
        !(journals_done(acts[i]) && journals_done(acts[j])),
{
    lemma_step(ms, ins, acts, i);
    lemma_step(ms, ins, acts, j);
    if journals_done(acts[i]) {
        lemma_onward(ms, ins, acts, i + 1, j);
    }
}

/// Law: a fresh run that has ended has journaled its end.
pub proof fn law_a_run_that_ended_journaled_it(
    ms: Seq<Machine>,
    ins: Seq<Input>,
    acts: Seq<Action>,
)
    requires
        history(ms, ins, acts),
        ms[0].phase == Phase::EnteringPrepare,
        ms.last().phase == Phase::Ended,
    ensures
        exists|k: int| 0 <= k < acts.len() && journals_done(#[trigger] acts[k]),
{
    lemma_done_journaled(ms, ins, acts, ms.len() - 1);
}

proof fn lemma_done_journaled(ms: Seq<Machine>, ins: Seq<Input>, acts: Seq<Action>, n: int)
    requires
        history(ms, ins, acts),
        ms[0].phase == Phase::EnteringPrepare,
        0 <= n < ms.len(),
        rank(ms[n].phase) >= 27,
    ensures
        exists|k: int| 0 <= k < n && journals_done(#[trigger] acts[k]),
    decreases n,
{
    lemma_step(ms, ins, acts, n - 1);
    if rank(ms[n - 1].phase) >= 27 {
        lemma_done_journaled(ms, ins, acts, n - 1);
        let k = choose|k: int| 0 <= k < n - 1 && journals_done(#[trigger] acts[k]);
        assert(journals_done(acts[k]));
    } else {
        assert(journals_done(acts[n - 1]));
    }
}

/// Law: the remote is asked once. No two steps of a run fetch.
pub proof fn law_the_fetch_is_made_once(
    ms: Seq<Machine>,
    ins: Seq<Input>,
    acts: Seq<Action>,
    i: int,
    j: int,
)
    requires
        history(ms, ins, acts),
        0 <= i < j < acts.len(),
    ensures
        !(acts[i] == Action::Fetch && acts[j] == Action::Fetch),
{
    lemma_step(ms, ins, acts, i);
    lemma_step(ms, ins, acts, j);
    if acts[i] == Action::Fetch {
        lemma_onward(ms, ins, acts, i + 1, j);
    }
}

/// At step `j` the benchmark was confirmed to accept every parameter.
pub open spec fn confirmed_params(ms: Seq<Machine>, ins: Seq<Input>, j: int) -> bool {
    &&& ms[j].phase == Phase::AskedParams
    &&& ins[j].0 matches Answer::Names(Ok(bad))
    &&& bad@.len() == 0
}

/// At step `j` the record directory was found to hold these records.
pub open spec fn snapshot_at(
    ms: Seq<Machine>,
    ins: Seq<Input>,
    j: int,
    records: Vec<(String, u128)>,
) -> bool {
    &&& ms[j].phase == Phase::Snapshotting
    &&& ins[j].0 == Answer::Records(Ok(records))
}

/// Law: nothing is started before its parameters were accepted and the record
/// directory was looked at. The step that starts the child is the one that
/// learned what the directory holds, and it keeps that in the record.
pub proof fn law_parameters_and_snapshot_come_first(
    ms: Seq<Machine>,
    ins: Seq<Input>,
    acts: Seq<Action>,
    i: int,
)
    requires
        history(ms, ins, acts),
        ms[0].phase == Phase::EnteringPrepare,
        0 <= i < acts.len(),
        acts[i] == Action::Spawn,
    ensures
        exists|j: int| 0 <= j < i && #[trigger] confirmed_params(ms, ins, j),
        snapshot_at(ms, ins, i, ms[i + 1].job.records_before),
{
    lemma_step(ms, ins, acts, i);
    assert(ms[i].phase == Phase::Snapshotting);
    lemma_step(ms, ins, acts, i - 1);
    assert(confirmed_params(ms, ins, i - 1));
}

proof fn lemma_snapshot_kept(ms: Seq<Machine>, ins: Seq<Input>, acts: Seq<Action>, n: int)
    requires
        history(ms, ins, acts),
        ms[0].phase == Phase::EnteringPrepare,
        0 <= n < ms.len(),
        18 <= rank(ms[n].phase) <= 26,
    ensures
        exists|j: int|
            0 <= j < n && #[trigger] snapshot_at(ms, ins, j, ms[n].job.records_before) && acts[j]
                == Action::Spawn,
    decreases n,
{
    lemma_earned(ms, ins, acts, n);
    lemma_earned(ms, ins, acts, n - 1);
    lemma_step(ms, ins, acts, n - 1);
    let records = ms[n].job.records_before;
    if ms[n - 1].phase == Phase::Snapshotting {
        assert(snapshot_at(ms, ins, n - 1, records));
    } else {
        assert(ms[n - 1].job.records_before == records);
        lemma_snapshot_kept(ms, ins, acts, n - 1);
        let j = choose|j: int|
            0 <= j < n - 1 && #[trigger] snapshot_at(
                ms,
                ins,
                j,
                ms[n - 1].job.records_before,
            ) && acts[j] == Action::Spawn;
        assert(snapshot_at(ms, ins, j, records));
    }
}

/// Law: what a job wrote is told by what was there right before it started.
/// When a run collects, the records it is held against are those that were
/// found by the step that started its child.
pub proof fn law_the_snapshot_is_what_is_collected_against(
    ms: Seq<Machine>,
    ins: Seq<Input>,
    acts: Seq<Action>,
    i: int,
)
    requires
        history(ms, ins, acts),
        ms[0].phase == Phase::EnteringPrepare,
        0 <= i < acts.len(),
        acts[i] == Action::Collect,
    ensures
        exists|j: int|
            0 <= j < i && #[trigger] snapshot_at(ms, ins, j, ms[i + 1].job.records_before)
                && acts[j] == Action::Spawn,
{
    lemma_step(ms, ins, acts, i);
    lemma_snapshot_kept(ms, ins, acts, i);
}

/// Law: running a job keeps its lists keyed, where what the record directory
/// holds is reported as a keyed list.
pub proof fn law_a_run_keeps_its_lists_keyed(
    a: Machine,
    answer: Answer,
    cancelled: bool,
    now_ms: u64,
    seq_high: u64,
    b: Machine,
    act: Action,
)
    requires
        fits(a.phase, answer),
        follows(a, answer, cancelled, now_ms, seq_high, b, act),
        a.job.keyed(),
        answer matches Answer::Records(Ok(records)) ==> keyed(records@),
    ensures
        b.job.keyed(),
{
}

/// Law: a run is given what was submitted. Once the parameters are accepted,
/// the arguments of the run name its gate and the node's hardware, the
/// checkpoint where the submission names one, and every parameter, each as one
/// `--param` followed by its name and value; they hold nothing else.
pub proof fn law_a_run_is_given_what_was_submitted(
    a: Machine,
    bad: Vec<String>,
    cancelled: bool,
    now_ms: u64,
    seq_high: u64,
    b: Machine,
    act: Action,
)
    requires
        follows(a, Answer::Names(Ok(bad)), cancelled, now_ms, seq_high, b, act),
        a.phase == Phase::AskedParams,
        bad@.len() == 0,
    ensures
        ({
            let argv = text::views(b.plan.argv@);
            let spec = a.job.spec;
            let reuse: int = if a.ctx.serve_reuse {
                3
            } else {
                0
            };
            let named: int = if spec.checkpoint is Some {
                2
            } else {
                0
            };
            let first = 8 + reuse + named;
            &&& argv.len() == first + 2 * spec.params@.len()
            &&& argv[0] == a.binary.path@
            &&& argv[1] == "benchmark"@
            &&& argv[2] == "run"@
            &&& argv[3] == spec.gate@
            &&& argv[4] == "--pull-request-gate"@
            &&& argv[5] == "--hardware"@
            &&& argv[6] == a.ctx.hardware@
            &&& argv[7] == "--yes"@
            &&& a.ctx.serve_reuse ==> argv[8] == "--serve-reuse"@ && argv[9]
                == "--serve-lease-owner"@ && argv[10] == text::dec(a.ctx.agent_pid as nat)
            &&& spec.checkpoint matches Some(c) ==> argv[8 + reuse] == "--checkpoint"@ && argv[9
                + reuse] == c@
            &&& forall|k: int|
                0 <= k < spec.params@.len() ==> param_at(
                    argv,
                    first + 2 * k,
                    #[trigger] spec.params@[k],
                )
        }),
        b.plan.cwd@ == a.worktree@,
        b.plan.env@ == a.ctx.child_env@,
        b.plan.max_run_s == a.job.spec.max_run_s,
        b.plan.stall_timeout_s == a.ctx.stall_timeout_s,
{
    let spec = a.job.spec;
    let tail = param_args(spec.params@, spec.params@.len() as int);
    lemma_param_args(spec.params@, spec.params@.len() as int);
    let argv = text::views(b.plan.argv@);
    let first = argv.len() - tail.len();
    assert forall|k: int| 0 <= k < spec.params@.len() implies param_at(
        argv,
        first + 2 * k,
        #[trigger] spec.params@[k],
    ) by {
        assert(param_at(tail, 2 * k, spec.params@[k]));
        assert(argv[first + 2 * k] == tail[2 * k]);
        assert(argv[first + 2 * k + 1] == tail[2 * k + 1]);
    }
}

/// At some place of a command line, and right behind it, stands a parameter.
pub open spec fn param_at(argv: Seq<Seq<char>>, i: int, p: (String, String)) -> bool {
    &&& argv[i] == "--param"@
    &&& argv[i + 1] == p.0@ + "="@ + p.1@
}

proof fn lemma_param_args(params: Seq<(String, String)>, n: int)
    requires
        0 <= n <= params.len(),
    ensures
        param_args(params, n).len() == 2 * n,
        forall|k: int| 0 <= k < n ==> param_at(param_args(params, n), 2 * k, #[trigger] params[k]),
    decreases n,
{
    if n > 0 {
        lemma_param_args(params, n - 1);
        let front = param_args(params, n - 1);
        let all = param_args(params, n);
        let said = params[n - 1].0@ + "="@ + params[n - 1].1@;
        assert(all == front.push("--param"@).push(said));
        assert forall|k: int| 0 <= k < n implies param_at(all, 2 * k, #[trigger] params[k]) by {
            if k < n - 1 {
                assert(param_at(front, 2 * k, params[k]));
                assert(all[2 * k] == front[2 * k]);
                assert(all[2 * k + 1] == front[2 * k + 1]);
            } else {
                assert(all[2 * (n - 1)] == "--param"@);
                assert(all[2 * (n - 1) + 1] == said);
            }
        }
    }
}

/// The stage that a phase belongs to, as the record has it.
pub open spec fn stage_of(p: Phase) -> JobState {
    match p {
        Phase::EnteringPrepare | Phase::AskedCommit | Phase::Fetching | Phase::AskedAgain
        | Phase::AskedPublished | Phase::AnnouncedCommit | Phase::CheckingOut => {
            JobState::Preparing
        },
        Phase::EnteringBuild | Phase::LookingUp | Phase::AnnouncedHit | Phase::AnnouncedMiss
        | Phase::Compiling | Phase::AnnouncedBuilt | Phase::KeepingBinary | Phase::SyncingRecipes
        | Phase::AskedGates | Phase::AskedParams | Phase::Snapshotting | Phase::Spawning => {
            JobState::Building
        },
        Phase::EnteringRun | Phase::AnnouncedRun | Phase::Reattaching | Phase::Waiting
        | Phase::AnnouncedVerdict => JobState::Running,
        Phase::EnteringCollect | Phase::Collecting | Phase::Listing => JobState::Collecting,
        Phase::Finishing | Phase::Closing | Phase::Ended => JobState::Done,
    }
}

/// Law: the record says how far the job is. A job that is in the state of its
/// phase stays so with every step, until its outcome is journaled; it is then
/// written as done. Its time is that of the step that changed the state, and
/// is otherwise kept.
pub proof fn law_the_record_says_how_far_the_job_is(
    a: Machine,
    answer: Answer,
    cancelled: bool,
    now_ms: u64,
    seq_high: u64,
    b: Machine,
    act: Action,
)
    requires
        fits(a.phase, answer),
        follows(a, answer, cancelled, now_ms, seq_high, b, act),
        a.phase != Phase::Finishing ==> a.job.state == stage_of(a.phase),
    ensures
        b.phase != Phase::Finishing ==> b.job.state == stage_of(b.phase),
        b.phase == Phase::Finishing ==> b.job.state == a.job.state && b.job.outcome is Some,
        b.job.seq_high == seq_high,
        b.job.state != a.job.state ==> act == Action::Save && b.job.updated_at_s == now_ms / 1000,
        b.job.state == a.job.state && b.phase != Phase::Closing ==> b.job.updated_at_s
            == a.job.updated_at_s,
{
}

/// The error in an answer, if it is one.
pub open spec fn error_in(answer: Answer) -> Option<Seq<char>> {
    match answer {
        Answer::Flag(Err(e)) => Some(e@),
        Answer::Unit(Err(e)) => Some(e@),
        Answer::Path(Err(e)) => Some(e@),
        Answer::Cache(Err(e)) => Some(e@),
        Answer::Built(Err(e)) => Some(e@),
        Answer::Names(Err(e)) => Some(e@),
        Answer::Records(Err(e)) => Some(e@),
        Answer::Child(Err(e)) => Some(e@),
        Answer::Finished(Err(e)) => Some(e@),
        Answer::Artifacts(Err(e)) => Some(e@),
        _ => None,
    }
}

/// Law: an error ends the job, and says so. Whatever could not be done, the
/// job fails in the stage it was in with what was said, and that is what is
/// journaled; one that could not be taken up again is orphaned, and a build
/// that was cut short is cancelled.
pub proof fn law_an_error_ends_the_job(
    a: Machine,
    answer: Answer,
    cancelled: bool,
    now_ms: u64,
    seq_high: u64,
    b: Machine,
    act: Action,
)
    requires
        fits(a.phase, answer),
        follows(a, answer, cancelled, now_ms, seq_high, b, act),
        error_in(answer) is Some,
    ensures
        b.phase == Phase::Finishing,
        b.job.outcome matches Some(o) && act == (Action::Append { kind: EventKind::Done { outcome: o } })
            && match o {
            Outcome::Failed { stage, reason } => {
                &&& text::ends(reason@, error_in(answer).unwrap())
                &&& stage == (if a.phase == Phase::Snapshotting || a.phase == Phase::Spawning {
                    JobState::Running
                } else {
                    stage_of(a.phase)
                })
                &&& a.phase != Phase::Reattaching
                &&& !(a.phase == Phase::Compiling && cancelled)
            },
            Outcome::Orphaned { reason } => a.phase == Phase::Reattaching && text::ends(
                reason@,
                error_in(answer).unwrap(),
            ),
            Outcome::Cancelled { by } => a.phase == Phase::Compiling && cancelled && by
                == a.ctx.local,
            _ => false,
        },
        b.job.child_pid is None,
        b.job.child_start_ticks is None,
{
    let e = error_in(answer).unwrap();
    text::law_beginnings_and_ends(e, e, "fetch failed: "@);
    text::law_beginnings_and_ends(e, e, "worktree: "@);
    text::law_beginnings_and_ends(e, e, "recipes: "@);
    text::law_beginnings_and_ends(e, e, "reading the record dir: "@);
    text::law_beginnings_and_ends(e, e, "spawn: "@);
    text::law_beginnings_and_ends(e, e, Seq::empty());
    assert(Seq::<char>::empty() + e =~= e);
}

/// Law: a job that was asked to end does not go on to build or to run. Asked
/// before its build or right after it, it is cancelled by this node.
pub proof fn law_a_cancelled_job_goes_no_further(
    a: Machine,
    answer: Answer,
    now_ms: u64,
    seq_high: u64,
    b: Machine,
    act: Action,
)
    requires
        fits(a.phase, answer),
        follows(a, answer, true, now_ms, seq_high, b, act),
        a.phase == Phase::CheckingOut || a.phase == Phase::KeepingBinary || a.phase
            == Phase::Compiling,
    ensures
        b.phase == Phase::Finishing || (a.phase == Phase::Compiling && answer matches Answer::Built(
            Ok(_),
        )),
        error_in(answer) is None && a.phase != Phase::Compiling ==> b.job.outcome == Some(
            Outcome::Cancelled { by: a.ctx.local },
        ) && act == (Action::Append {
            kind: EventKind::Done { outcome: Outcome::Cancelled { by: a.ctx.local } },
        }),
{
}

/// Law: how the child ended is how the job ends. A run that stalled or ran too
/// long is timed out after that time, one that was cancelled is cancelled by
/// this node, and one that exited is collected with its code and verdict.
pub proof fn law_the_child_decides_the_end(
    a: Machine,
    end: RunEnd,
    cancelled: bool,
    now_ms: u64,
    seq_high: u64,
    b: Machine,
    act: Action,
)
    requires
        a.phase == Phase::Waiting,
        follows(a, Answer::Finished(Ok(end)), cancelled, now_ms, seq_high, b, act),
    ensures
        match end {
            RunEnd::Exited { code, verdict } => {
                &&& b.exit_code == code
                &&& b.verdict == verdict
                &&& b.job.outcome == a.job.outcome
                &&& verdict matches Some(v) ==> act == (Action::Append {
                    kind: EventKind::Verdict { verdict: v },
                })
                &&& verdict is None ==> act == Action::Save && b.job.state == JobState::Collecting
            },
            RunEnd::Stalled { after_s } => b.job.outcome == Some(
                Outcome::TimedOut { stage: JobState::Running, after_s },
            ),
            RunEnd::TimedOut { after_s } => b.job.outcome == Some(
                Outcome::TimedOut { stage: JobState::Running, after_s },
            ),
            RunEnd::Cancelled => b.job.outcome == Some(Outcome::Cancelled { by: a.ctx.local }),
        },
        !(end is Exited) ==> (b.job.outcome matches Some(o) && act == (Action::Append {
            kind: EventKind::Done { outcome: o },
        })),
{
}

/// Law: what the child left is kept until the job ends. After the child has
/// exited, every step keeps its code and verdict, and each of its files is
/// journaled in turn.
pub proof fn law_every_artifact_is_journaled(
    a: Machine,
    answer: Answer,
    cancelled: bool,
    now_ms: u64,
    seq_high: u64,
    b: Machine,
    act: Action,
)
    requires
        fits(a.phase, answer),
        follows(a, answer, cancelled, now_ms, seq_high, b, act),
        a.phase == Phase::AnnouncedVerdict || a.phase == Phase::EnteringCollect || a.phase
            == Phase::Collecting || a.phase == Phase::Listing,
    ensures
        b.exit_code == a.exit_code,
        b.verdict == a.verdict,
        answer matches Answer::Artifacts(Ok(files)) ==> (files@.len() > 0 ==> act == (
        Action::Append { kind: EventKind::Artifact { meta: files@[0] } }) && b.artifacts == files
            && b.listed == 1),
        a.phase == Phase::Listing && a.listed < a.artifacts@.len() ==> act == (Action::Append {
            kind: EventKind::Artifact { meta: a.artifacts@[a.listed as int] },
        }) && b.artifacts == a.artifacts && b.listed == a.listed + 1 && b.phase == Phase::Listing,
        a.phase == Phase::Listing && a.listed >= a.artifacts@.len() ==> b.phase == Phase::Finishing,
{
    assert(a.artifacts@.len() == a.artifacts.len());
}

/// The first file of a kind is this one.
pub open spec fn is_first(files: Seq<ArtifactMeta>, kind: ArtifactKind, path: String) -> bool {
    exists|i: int|
        0 <= i < files.len() && (#[trigger] files[i]).kind == kind && files[i].relative_path == path
            && forall|j: int| 0 <= j < i ==> (#[trigger] files[j]).kind != kind
}

/// Law: a run that was collected ends with what it left: its code and its
/// verdict, the first record and the first signature that it wrote, and none
/// where it wrote none. One that exited well without a record has failed.
pub proof fn law_a_run_ends_with_what_it_left(
    a: Machine,
    cancelled: bool,
    now_ms: u64,
    seq_high: u64,
    b: Machine,
    act: Action,
)
    requires
        a.phase == Phase::Listing,
        a.listed >= a.artifacts@.len(),
        follows(a, Answer::Stored, cancelled, now_ms, seq_high, b, act),
    ensures
        ({
            let none = forall|i: int|
                0 <= i < a.artifacts@.len() ==> (#[trigger] a.artifacts@[i]).kind
                    != ArtifactKind::Record;
            &&& a.exit_code == 0 && none ==> (b.job.outcome matches Some(
                Outcome::Failed { stage, reason },
            ) && stage == JobState::Collecting && reason@
                == "the child exited 0 but wrote no gate record"@)
            &&& !(a.exit_code == 0 && none) ==> (b.job.outcome matches Some(
                Outcome::Completed { exit_code, verdict, record, signature },
            ) && exit_code == a.exit_code && verdict == a.verdict && match record {
                Some(path) => is_first(a.artifacts@, ArtifactKind::Record, path),
                None => none,
            } && match signature {
                Some(path) => is_first(a.artifacts@, ArtifactKind::Signature, path),
                None => forall|i: int|
                    0 <= i < a.artifacts@.len() ==> (#[trigger] a.artifacts@[i]).kind
                        != ArtifactKind::Signature,
            })
        }),
{
    lemma_first_of(a.artifacts@, ArtifactKind::Record, 0);
    lemma_first_of(a.artifacts@, ArtifactKind::Signature, 0);
}

proof fn lemma_first_of(v: Seq<ArtifactMeta>, kind: ArtifactKind, from: int)
    requires
        0 <= from <= v.len(),
        forall|j: int| 0 <= j < from ==> (#[trigger] v[j]).kind != kind,
    ensures
        match first_of(v, kind, from) {
            Some(path) => is_first(v, kind, path),
            None => forall|i: int| 0 <= i < v.len() ==> (#[trigger] v[i]).kind != kind,
        },
    decreases v.len() - from,
{
    if from < v.len() {
        if v[from].kind == kind {
            assert(v[from].relative_path == first_of(v, kind, from).unwrap());
        } else {
            lemma_first_of(v, kind, from + 1);
        }
    }
}

/// Law: the binary that is run is the one that was found or built, and the
/// record names it. A hit is announced as one and is not built again, and a
/// miss is built.
pub proof fn law_the_binary_found_is_the_one_run(
    a: Machine,
    answer: Answer,
    cancelled: bool,
    now_ms: u64,
    seq_high: u64,
    b: Machine,
    act: Action,
)
    requires
        fits(a.phase, answer),
        follows(a, answer, cancelled, now_ms, seq_high, b, act),
    ensures
        answer matches Answer::Cache(Ok(Ok(binary))) ==> b.binary == binary && b.cached
            && act matches Action::Append { kind: EventKind::Build { cached: true, .. } },
        answer matches Answer::Cache(Ok(Err(_))) ==> b.phase == Phase::AnnouncedMiss
            && act matches Action::Append { kind: EventKind::Build { cached: false, .. } },
        a.phase == Phase::AnnouncedMiss ==> act == Action::Build,
        a.phase == Phase::AnnouncedHit ==> act == (Action::Append {
            kind: EventKind::Built { binary_sha256: a.binary.sha256, cached: true, secs: 0 },
        }),
        answer matches Answer::Built(Ok(built)) ==> b.binary == built.binary && act == (
        Action::Append {
            kind: EventKind::Built {
                binary_sha256: built.binary.sha256,
                cached: false,
                secs: built.secs,
            },
        }),
        a.phase == Phase::AnnouncedBuilt ==> b.job.binary_sha256 == Some(a.binary.sha256) && act
            == Action::Save,
        a.phase != Phase::LookingUp && a.phase != Phase::Compiling ==> b.binary == a.binary,
        a.phase != Phase::AnnouncedBuilt ==> b.job.binary_sha256 == a.job.binary_sha256,
        a.phase != Phase::AskedParams && a.phase != Phase::Reattaching ==> b.plan == a.plan,
        a.phase != Phase::CheckingOut && a.phase != Phase::Reattaching ==> b.worktree
            == a.worktree,
        answer matches Answer::Path(Ok(path)) ==> b.worktree == path,
{
}

/// Law: a gate is run only where the binary knows it, and its parameters only
/// where none of them was refused.
pub proof fn law_only_a_known_gate_is_run(
    a: Machine,
    names: Vec<String>,
    cancelled: bool,
    now_ms: u64,
    seq_high: u64,
    b: Machine,
    act: Action,
)
    requires
        follows(a, Answer::Names(Ok(names)), cancelled, now_ms, seq_high, b, act),
        a.phase == Phase::AskedGates || a.phase == Phase::AskedParams,
    ensures
        a.phase == Phase::AskedGates ==> (act == Action::BadParams <==> exists|i: int|
            0 <= i < names@.len() && (#[trigger] names@[i])@ == a.job.spec.gate@),
        a.phase == Phase::AskedParams ==> (act == Action::RecordState <==> names@.len() == 0),
        act != Action::BadParams && act != Action::RecordState ==> (b.job.outcome matches Some(
            Outcome::Failed { stage, .. },
        ) && stage == JobState::Building),
{
    let known = text::views(names@);
    if known.contains(a.job.spec.gate@) {
        let i = choose|i: int| 0 <= i < known.len() && known[i] == a.job.spec.gate@;
        assert(names@[i]@ == known[i]);
    }
    if exists|i: int| 0 <= i < names@.len() && (#[trigger] names@[i])@ == a.job.spec.gate@ {
        let i = choose|i: int| 0 <= i < names@.len() && (#[trigger] names@[i])@ == a.job.spec.gate@;
        assert(known[i] == a.job.spec.gate@);
    }
}

/// Law: the child that was started is the one that is recorded, announced and
/// waited for, and it is announced with the arguments it was given.
pub proof fn law_the_child_is_recorded(
    a: Machine,
    answer: Answer,
    cancelled: bool,
    now_ms: u64,
    seq_high: u64,
    b: Machine,
    act: Action,
)
    requires
        fits(a.phase, answer),
        follows(a, answer, cancelled, now_ms, seq_high, b, act),
    ensures
        answer matches Answer::Child(Ok(child)) ==> b.child == child && b.job.child_pid == Some(
            child.pid,
        ) && b.job.child_start_ticks == Some(child.start_ticks) && act == Action::Save,
        a.phase == Phase::EnteringRun ==> (act matches Action::Append {
            kind: EventKind::Running { pid, argv },
        } && pid == a.child.pid && argv@ == a.plan.argv@),
        a.phase == Phase::AnnouncedRun ==> act == Action::Wait,
        a.phase != Phase::Spawning ==> b.child == a.child,
        b.job.outcome is None && a.phase != Phase::Spawning ==> b.job.child_pid == a.job.child_pid
            && b.job.child_start_ticks == a.job.child_start_ticks || b.phase == Phase::Finishing,
        act == Action::End ==> b.phase == Phase::Ended,
{
}

/// Law: every stage asks for what the next one needs. A commit that is not here
/// is fetched and looked for again, and is announced with whether it was; then
/// comes its worktree, the binary, which is built where there is none, the
/// recipes, the gates and the parameters that the binary knows, the child, and
/// what it left, which goes to the job's own directory.
pub proof fn law_every_stage_asks_for_the_next(
    a: Machine,
    answer: Answer,
    now_ms: u64,
    seq_high: u64,
    b: Machine,
    act: Action,
)
    requires
        fits(a.phase, answer),
        follows(a, answer, false, now_ms, seq_high, b, act),
    ensures
        match (a.phase, answer) {
            (Phase::EnteringPrepare, Answer::Stored) => act is HasCommit,
            (Phase::AskedCommit, Answer::Flag(Ok(here))) => {
                &&& !here ==> act is Fetch && b.phase is Fetching
                &&& here ==> !b.fetched && b.phase == (if a.ctx.allow_unpublished {
                    Phase::AnnouncedCommit
                } else {
                    Phase::AskedPublished
                })
                &&& here && !a.ctx.allow_unpublished ==> act is Published
                &&& here && a.ctx.allow_unpublished ==> announces(act, a.job.spec.sha, false)
            },
            (Phase::Fetching, Answer::Unit(Ok(_))) => act is HasCommit && b.phase is AskedAgain,
            (Phase::AskedAgain, Answer::Flag(Ok(here))) => {
                &&& !here ==> act is Append && b.phase is Finishing
                &&& here ==> b.fetched
                &&& here && !a.ctx.allow_unpublished ==> act is Published
                &&& here && a.ctx.allow_unpublished ==> announces(act, a.job.spec.sha, true)
            },
            (Phase::AskedPublished, Answer::Flag(Ok(true))) => announces(
                act,
                a.job.spec.sha,
                a.fetched,
            ),
            (Phase::AnnouncedCommit, Answer::Stored) => act is Worktree,
            (Phase::CheckingOut, Answer::Path(Ok(path))) => b.worktree == path && act is Save,
            (Phase::EnteringBuild, Answer::Stored) => act is CachedBinary,
            (Phase::AnnouncedMiss, Answer::Stored) => act is Build,
            (Phase::AnnouncedBuilt, Answer::Stored) => act is Save && b.job.binary_sha256 == Some(
                a.binary.sha256,
            ),
            (Phase::KeepingBinary, Answer::Stored) => act is EnsureRecipes,
            (Phase::SyncingRecipes, Answer::Flag(Ok(_))) => act is KnownGates,
            (Phase::Snapshotting, Answer::Records(Ok(records))) => act is Spawn
                && b.job.records_before == records,
            (Phase::AnnouncedRun, Answer::Stored) => act is Wait,
            (Phase::EnteringCollect, Answer::Stored) => act is Collect && b.dest@ == below(
                below(a.ctx.store.base(), a.job.id@),
                "artifacts"@,
            ),
            (Phase::Finishing, Answer::Stored) => act is Save && b.job.state is Done,
            (Phase::Closing, Answer::Stored) => act is End,
            _ => true,
        },
{
}

/// An event that announces a commit.
pub open spec fn announces(act: Action, sha: String, fetched: bool) -> bool {
    act matches Action::Append { kind: EventKind::Preparing { sha: s, fetched: f } } && s == sha && f
        == fetched
}

} // verus!
