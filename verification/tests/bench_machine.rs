use metralectl_agent::bench::event::{
    ArtifactKind, ArtifactMeta, BenchEvent, EventKind, JobState, LogStream, Outcome, Verdict,
    VerdictKind,
};
use metralectl_agent::bench::job::{JobRecord, JobSpec, JobStore};
use metralectl_agent::bench::journal::Journal;
use metralectl_agent::bench::machine::{
    orphan, resume_running, run as begin, Action, Answer, BuildResult, CacheMiss, CachedBinary,
    ChildHandle, Ctx, Machine, RunEnd,
};
use metralectl_agent::node::NodeId;

/// A scripted world. Every field is what the corresponding outside work
/// answers; the log records what was asked.
struct Script {
    has_commit: Vec<bool>,
    fetch_ok: bool,
    published: bool,
    cache: Result<CachedBinary, CacheMiss>,
    build_ok: bool,
    known: Vec<String>,
    bad_params: Vec<String>,
    spawn_ok: bool,
    end: RunEnd,
    artifacts: Vec<ArtifactMeta>,
    calls: Vec<String>,
    cancel_during_build: bool,
    cancelled: bool,
    clock: u64,
}

impl Script {
    fn happy() -> Self {
        Self {
            has_commit: vec![true],
            fetch_ok: true,
            published: true,
            cache: Err(CacheMiss::NoBuild),
            build_ok: true,
            known: vec!["decode-floor".into(), "bfcl-subset-a".into()],
            bad_params: vec![],
            spawn_ok: true,
            end: RunEnd::Exited {
                code: 0,
                verdict: Some(Verdict {
                    kind: VerdictKind::Pass,
                    text: "median 26.0".into(),
                }),
            },
            artifacts: vec![
                ArtifactMeta {
                    name: "r.json".into(),
                    relative_path: ".benchmarks/decode-floor/r.json".into(),
                    bytes: 10,
                    sha256: "aa".repeat(32),
                    kind: ArtifactKind::Record,
                },
                ArtifactMeta {
                    name: "r.json.sig".into(),
                    relative_path: ".benchmarks/decode-floor/r.json.sig".into(),
                    bytes: 3,
                    sha256: "bb".repeat(32),
                    kind: ArtifactKind::Signature,
                },
            ],
            calls: vec![],
            cancel_during_build: false,
            cancelled: false,
            clock: 1_000_000,
        }
    }

    fn log(&mut self, s: &str) {
        self.calls.push(s.into());
    }

    fn calls(&self) -> Vec<String> {
        self.calls.clone()
    }

    fn binary() -> CachedBinary {
        CachedBinary {
            path: "/cache/build/x/met".into(),
            sha256: "cc".repeat(32),
        }
    }

    fn now_ms(&mut self) -> u64 {
        self.clock += 1000;
        self.clock
    }

    /// Do what the machine asks for, and say what came of it.
    fn perform(&mut self, w: &mut World, m: &Machine, act: Action) -> Answer {
        match act {
            Action::Save => {
                w.stored = m.job.clone();
                Answer::Stored
            }
            Action::Append { kind } => {
                let now = self.now_ms();
                w.append(kind, now);
                Answer::Stored
            }
            Action::HasCommit => {
                let n = self.calls.iter().filter(|c| *c == "has_commit").count();
                self.log("has_commit");
                Answer::Flag(Ok(*self.has_commit.get(n).unwrap_or(&true)))
            }
            Action::Fetch => {
                self.log("fetch");
                Answer::Unit(if self.fetch_ok {
                    Ok(())
                } else {
                    Err("remote unreachable".into())
                })
            }
            Action::Published => {
                self.log("published");
                Answer::Flag(Ok(self.published))
            }
            Action::Worktree => {
                self.log("worktree");
                Answer::Path(Ok("/cache/worktrees/x".into()))
            }
            Action::CachedBinary => {
                self.log("cached_binary");
                Answer::Cache(Ok(self.cache.clone()))
            }
            Action::Build => {
                self.log("build");
                if self.cancel_during_build {
                    self.cancelled = true;
                    return Answer::Built(Err("killed".into()));
                }
                Answer::Built(if self.build_ok {
                    Ok(BuildResult {
                        binary: Self::binary(),
                        secs: 42,
                    })
                } else {
                    Err("cargo failed".into())
                })
            }
            Action::EnsureRecipes => {
                self.log("ensure_recipes");
                Answer::Flag(Ok(false))
            }
            Action::KnownGates => {
                self.log("known_gates");
                Answer::Names(Ok(self.known.clone()))
            }
            Action::BadParams => {
                self.log("bad_params");
                Answer::Names(Ok(self.bad_params.clone()))
            }
            Action::RecordState => {
                self.log("record_state");
                Answer::Records(Ok(vec![]))
            }
            Action::Spawn => {
                self.log(&format!("spawn {}", m.plan.argv.join(" ")));
                Answer::Child(if self.spawn_ok {
                    Ok(ChildHandle {
                        pid: 4242,
                        start_ticks: 99,
                    })
                } else {
                    Err("no such file".into())
                })
            }
            Action::Wait => {
                self.log("wait");
                let now = self.now_ms();
                w.append(
                    EventKind::Log {
                        stream: LogStream::Run,
                        lines: vec!["  [  1.0s] warmup".into()],
                    },
                    now,
                );
                Answer::Finished(Ok(self.end.clone()))
            }
            Action::Collect => {
                self.log("collect");
                Answer::Artifacts(Ok(self.artifacts.clone()))
            }
            Action::End => unreachable!("the job is over"),
        }
    }

    /// Drive a machine to its end.
    fn drive(&mut self, w: &mut World, begun: (Machine, Action)) -> Outcome {
        let (mut m, mut act) = begun;
        while act != Action::End {
            let answer = self.perform(w, &m, act);
            let now = self.now_ms();
            act = m.step(answer, self.cancelled, now, w.journal.seq_high());
        }
        m.job.outcome.clone().expect("a job that ended has an outcome")
    }
}

struct World {
    journal: Journal,
    events: Vec<BenchEvent>,
    job: JobRecord,
    stored: JobRecord,
}

impl World {
    fn append(&mut self, kind: EventKind, at_ms: u64) {
        let e = self.journal.append(kind, at_ms).expect("journaled");
        self.events.push(e);
    }
}

fn world() -> World {
    let sender = NodeId::parse(&"ef".repeat(32)).unwrap();
    let id = JobStore::mint_id(1, "k", sender);
    let job = JobRecord {
        id: id.clone(),
        key: "k".into(),
        sender,
        spec: JobSpec {
            sha: "ab".repeat(20),
            gate: "decode-floor".into(),
            params: vec![("osl".to_string(), "8".to_string())],
            checkpoint: None,
            max_run_s: 600,
        },
        note: None,
        state: JobState::Queued,
        created_at_s: 1,
        updated_at_s: 1,
        child_pid: None,
        child_start_ticks: None,
        binary_sha256: None,
        records_before: vec![],
        seq_high: 0,
        outcome: None,
    };
    World {
        journal: Journal::open(id, &Vec::new()),
        events: vec![],
        stored: job.clone(),
        job,
    }
}

const AGENT_PID: u32 = 777;

fn ctx() -> Ctx {
    Ctx {
        store: JobStore::new("/cache/jobs".into()),
        local: NodeId::parse(&"11".repeat(32)).unwrap(),
        hardware: "gb10".into(),
        child_env: vec![("METRALE_HOME".into(), "/h".into())],
        stall_timeout_s: 10,
        allow_unpublished: false,
        serve_reuse: false,
        agent_pid: AGENT_PID,
    }
}

fn run_in(w: &mut World, s: &mut Script, c: Ctx) -> Outcome {
    let now = s.now_ms();
    let begun = begin(c, w.job.clone(), now, w.journal.seq_high());
    s.drive(w, begun)
}

fn run(w: &mut World, s: &mut Script) -> Outcome {
    run_in(w, s, ctx())
}

/// The run reached its end with a clean exit and said yes.
fn passed(out: &Outcome) -> bool {
    matches!(
        out,
        Outcome::Completed { exit_code: 0, verdict: Some(v), .. } if v.kind == VerdictKind::Pass
    )
}

fn kinds(w: &World) -> Vec<&'static str> {
    w.events
        .iter()
        .map(|e| match &e.kind {
            EventKind::Queued { .. } => "queued",
            EventKind::Preparing { .. } => "preparing",
            EventKind::Build { .. } => "build",
            EventKind::Built { .. } => "built",
            EventKind::Running { .. } => "running",
            EventKind::Log { .. } => "log",
            EventKind::Progress { .. } => "progress",
            EventKind::Verdict { .. } => "verdict",
            EventKind::Artifact { .. } => "artifact",
            EventKind::Done { .. } => "done",
            EventKind::Heartbeat { .. } => "heartbeat",
        })
        .collect()
}

#[test]
fn the_happy_path_walks_every_stage_and_renders_the_argv_itself() {
    let mut w = world();
    let mut s = Script::happy();
    let out = run(&mut w, &mut s);
    assert!(passed(&out), "{out:?}");
    assert!(
        matches!(&out, Outcome::Completed { record: Some(r), signature: Some(_), .. } if r.ends_with("r.json"))
    );
    let calls = s.calls();
    assert!(calls.iter().any(|c| c.starts_with("spawn /cache/build/x/met benchmark run decode-floor --pull-request-gate --hardware gb10 --yes --param osl=8")), "{calls:?}");
    assert!(
        !calls.contains(&"fetch".to_string()),
        "the commit was already here"
    );
    assert_eq!(
        kinds(&w),
        [
            "preparing",
            "build",
            "built",
            "running",
            "log",
            "verdict",
            "artifact",
            "artifact",
            "done"
        ]
    );
    let stored = &w.stored;
    assert_eq!(stored.state, JobState::Done);
    assert_eq!(
        stored.binary_sha256.as_deref(),
        Some("cc".repeat(32).as_str())
    );
    assert!(stored.child_pid.is_none(), "cleared once the child is gone");
    assert_eq!(stored.seq_high, 9);
}

/// With `serve_reuse` the child is told to take (or leave) the leased
/// server, and told whose it is — the agent's own pid — so a lease this
/// agent did not start is never taken. Without it, nothing changes.
#[test]
fn serve_reuse_renders_the_lease_flags_with_this_agents_pid() {
    let mut w = world();
    let mut s = Script::happy();
    let mut c = ctx();
    c.serve_reuse = true;
    run_in(&mut w, &mut s, c);
    let want = format!(
        "spawn /cache/build/x/met benchmark run decode-floor --pull-request-gate --hardware gb10 \
         --yes --serve-reuse --serve-lease-owner {} --param osl=8",
        AGENT_PID
    );
    let calls = s.calls();
    assert!(calls.iter().any(|c| c.starts_with(&want)), "{calls:?}");
}

#[test]
fn a_missing_commit_is_fetched_once_and_then_refused() {
    let mut w = world();
    let mut s = Script::happy();
    s.has_commit = vec![false, true];
    let out = run(&mut w, &mut s);
    assert!(passed(&out));
    assert!(s.calls().contains(&"fetch".to_string()));
    let ev = &w.events;
    assert!(matches!(
        ev[0].kind,
        EventKind::Preparing { fetched: true, .. }
    ));

    let mut w = world();
    let mut s = Script::happy();
    s.has_commit = vec![false, false];
    let out = run(&mut w, &mut s);
    assert!(
        matches!(out, Outcome::Failed { stage: JobState::Preparing, ref reason } if reason.contains("not on the remote")),
        "{out:?}"
    );
}

/// NEGATIVE CONTROL: an unpublished commit never builds.
#[test]
fn an_unpublished_commit_is_refused_before_any_build() {
    let mut w = world();
    let mut s = Script::happy();
    s.published = false;
    let out = run(&mut w, &mut s);
    assert!(
        matches!(out, Outcome::Failed { stage: JobState::Preparing, ref reason } if reason.contains("trusted remote")),
        "{out:?}"
    );
    assert!(!s.calls().contains(&"build".to_string()));
    // …unless the node's operator allowed it.
    let mut w = world();
    let mut s = Script::happy();
    s.published = false;
    let mut c = ctx();
    c.allow_unpublished = true;
    assert!(passed(&run_in(&mut w, &mut s, c)));
}

#[test]
fn a_cache_hit_skips_the_build_and_says_so() {
    let mut w = world();
    let mut s = Script::happy();
    s.cache = Ok(Script::binary());
    let out = run(&mut w, &mut s);
    assert!(passed(&out));
    assert!(!s.calls().contains(&"build".to_string()), "{:?}", s.calls());
    let ev = &w.events;
    assert!(
        matches!(&ev[1].kind, EventKind::Build { cached: true, reason } if reason.contains("cache hit"))
    );
    assert!(matches!(
        ev[2].kind,
        EventKind::Built {
            cached: true,
            secs: 0,
            ..
        }
    ));
}

/// NEGATIVE CONTROLS: a stale binary — provenance for another sha, or bytes
/// that do not hash to their provenance — is rebuilt, never reused, and the
/// journal names why.
#[test]
fn a_stale_or_tampered_cached_binary_is_rebuilt_not_reused() {
    for (miss, needle) in [
        (
            CacheMiss::WrongSha("deadbeef00".into()),
            "provenance names deadbeef00",
        ),
        (CacheMiss::HashMismatch, "hash does not match"),
        (CacheMiss::NoProvenance, "no provenance"),
    ] {
        let mut w = world();
        let mut s = Script::happy();
        s.cache = Err(miss);
        let out = run(&mut w, &mut s);
        assert!(passed(&out));
        assert!(s.calls().contains(&"build".to_string()), "{needle}");
        let ev = &w.events;
        assert!(
            matches!(&ev[1].kind, EventKind::Build { cached: false, reason } if reason.contains(needle)),
            "{:?}",
            ev[1].kind
        );
    }
}

#[test]
fn an_unknown_gate_and_bad_params_are_refused_by_the_binary_itself() {
    let mut w = world();
    let mut s = Script::happy();
    s.known = vec!["vision-fidelity".into()];
    let out = run(&mut w, &mut s);
    assert!(
        matches!(out, Outcome::Failed { stage: JobState::Building, ref reason } if reason.contains("vision-fidelity")),
        "{out:?}"
    );
    assert!(!s.calls().iter().any(|c| c.starts_with("spawn")));

    let mut w = world();
    let mut s = Script::happy();
    s.bad_params = vec!["osl".into()];
    let out = run(&mut w, &mut s);
    assert!(
        matches!(out, Outcome::Failed { stage: JobState::Building, ref reason } if reason.contains("osl")),
        "{out:?}"
    );
}

#[test]
fn a_failed_build_and_a_failed_spawn_are_failures_at_their_stage() {
    let mut w = world();
    let mut s = Script::happy();
    s.build_ok = false;
    let out = run(&mut w, &mut s);
    assert!(
        matches!(
            out,
            Outcome::Failed {
                stage: JobState::Building,
                ..
            }
        ),
        "{out:?}"
    );

    let mut w = world();
    let mut s = Script::happy();
    s.spawn_ok = false;
    let out = run(&mut w, &mut s);
    assert!(
        matches!(
            out,
            Outcome::Failed {
                stage: JobState::Running,
                ..
            }
        ),
        "{out:?}"
    );
}

#[test]
fn stall_timeout_and_cancel_end_the_run_with_their_own_outcomes() {
    let mut w = world();
    let mut s = Script::happy();
    s.end = RunEnd::Stalled { after_s: 1800 };
    let out = run(&mut w, &mut s);
    assert_eq!(
        out,
        Outcome::TimedOut {
            stage: JobState::Running,
            after_s: 1800
        }
    );

    let mut w = world();
    let mut s = Script::happy();
    s.end = RunEnd::Cancelled;
    let out = run(&mut w, &mut s);
    assert!(matches!(out, Outcome::Cancelled { .. }));

    // Cancel during the build: the build's error is read as a cancel.
    let mut w = world();
    let mut s = Script::happy();
    s.cancel_during_build = true;
    let out = run(&mut w, &mut s);
    assert!(matches!(out, Outcome::Cancelled { .. }), "{out:?}");
}

/// NEGATIVE CONTROL: exit 0 with no record is a failure, not a success with
/// nothing to show.
#[test]
fn exit_zero_without_a_record_is_a_collecting_failure() {
    let mut w = world();
    let mut s = Script::happy();
    s.artifacts.clear();
    let out = run(&mut w, &mut s);
    assert!(
        matches!(out, Outcome::Failed { stage: JobState::Collecting, ref reason } if reason.contains("no gate record")),
        "{out:?}"
    );
    // A verdict FAIL with exit 2 and a record is a completed run that said no.
    let mut w = world();
    let mut s = Script::happy();
    s.end = RunEnd::Exited {
        code: 2,
        verdict: Some(Verdict {
            kind: VerdictKind::Fail,
            text: "below floor".into(),
        }),
    };
    let out = run(&mut w, &mut s);
    assert!(matches!(out, Outcome::Completed { exit_code: 2, .. }));
    assert!(!passed(&out));
}

#[test]
fn orphan_records_a_terminal_outcome() {
    let mut w = world();
    let mut s = Script::happy();
    let begun = orphan(ctx(), w.job.clone(), "agent restarted");
    s.drive(&mut w, begun);
    let stored = &w.stored;
    assert_eq!(stored.state, JobState::Done);
    assert!(matches!(stored.outcome, Some(Outcome::Orphaned { .. })));
}

/// A job whose child outlived a restart is taken up where it was: waited for,
/// collected, ended.
#[test]
fn a_running_job_is_taken_up_again_after_a_restart() {
    let mut w = world();
    let mut s = Script::happy();
    w.job.state = JobState::Running;
    w.job.child_pid = Some(4242);
    w.job.child_start_ticks = Some(99);
    let begun = resume_running(ctx(), w.job.clone());
    let out = s.drive(&mut w, begun);
    assert!(passed(&out), "{out:?}");
    assert!(!s.calls().iter().any(|c| c.starts_with("spawn")), "it is running already");
    assert_eq!(w.stored.state, JobState::Done);

    // One that recorded no child cannot be.
    let mut w = world();
    let mut s = Script::happy();
    let begun = resume_running(ctx(), w.job.clone());
    let out = s.drive(&mut w, begun);
    assert!(matches!(out, Outcome::Orphaned { reason } if reason == "no child recorded"));
}

/// A remote that cannot be fetched from is a failure to prepare, in its words.
#[test]
fn a_failed_fetch_is_a_failure_to_prepare() {
    let mut w = world();
    let mut s = Script::happy();
    s.has_commit = vec![false];
    s.fetch_ok = false;
    let out = run(&mut w, &mut s);
    assert!(
        matches!(&out, Outcome::Failed { stage: JobState::Preparing, reason } if reason.contains("remote unreachable")),
        "{out:?}"
    );
}

/// The ceiling of a run is its own outcome too.
#[test]
fn a_run_past_its_ceiling_is_timed_out() {
    let mut w = world();
    let mut s = Script::happy();
    s.end = RunEnd::TimedOut { after_s: 601 };
    assert_eq!(
        run(&mut w, &mut s),
        Outcome::TimedOut {
            stage: JobState::Running,
            after_s: 601
        }
    );
}

/// However a run ends, its end is journaled once and last, and the commit is
/// fetched at most once.
#[test]
fn every_run_journals_its_end_once_and_last() {
    let mut scripts = Vec::new();
    scripts.push(Script::happy());
    let mut s = Script::happy();
    s.has_commit = vec![false, false];
    scripts.push(s);
    let mut s = Script::happy();
    s.has_commit = vec![false, true];
    s.published = false;
    scripts.push(s);
    let mut s = Script::happy();
    s.cancel_during_build = true;
    scripts.push(s);
    let mut s = Script::happy();
    s.spawn_ok = false;
    scripts.push(s);
    for mut s in scripts {
        let mut w = world();
        let _ = run(&mut w, &mut s);
        let kinds = kinds(&w);
        assert_eq!(kinds.iter().filter(|k| **k == "done").count(), 1, "{kinds:?}");
        assert_eq!(kinds.last(), Some(&"done"));
        let fetched = s.calls().iter().filter(|c| *c == "fetch").count();
        assert!(fetched <= 1, "{:?}", s.calls());
    }
}

/// The child is started once its parameters were accepted and the record
/// directory was looked at, and what was seen there stays in the record.
#[test]
fn parameters_and_snapshot_come_before_the_child() {
    let mut w = world();
    let mut s = Script::happy();
    let _ = run(&mut w, &mut s);
    let calls = s.calls();
    let at = |what: &str| {
        calls
            .iter()
            .position(|c| c.starts_with(what))
            .expect("asked for")
    };
    assert!(at("bad_params") < at("record_state"));
    assert!(at("record_state") < at("spawn"));
    assert!(at("spawn") < at("collect"));
}
