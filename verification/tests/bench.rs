use ed25519_dalek::pkcs8::EncodePrivateKey;
use metralectl_agent::bench::child::{
    kill_group, parse_progress, parse_verdict, same_process, sanitize, start_ticks,
};
use metralectl_agent::bench::commands::{
    build_argv, fetch_argv, has_commit_argv, head_argv, list_gates_argv, list_params_argv,
    needs_recipes, published_argv, sync_recipes_argv, worktree_add_argv, worktree_remove_argv,
};
use metralectl_agent::bench::config::{BenchConfig, Facts, Inherited};
use metralectl_agent::bench::event::{
    ArtifactKind, ArtifactMeta, BenchEvent, EventKind, JobState, Outcome, VerdictKind,
};
use metralectl_agent::bench::host::{
    list, next_job, queued, BenchHost, CancelStep, Submission, SubmitFacts, SubmitStep,
};
use metralectl_agent::bench::job::{looks_like_job_id, now_s, JobRecord, JobSpec, JobStore};
use metralectl_agent::bench::journal::{before_write, replay, Journal, Mend};
use metralectl_agent::bench::lease::{
    alive, kill_args, ours, path, release, release_idle_lease, Lease, ReleaseStep,
};
use metralectl_agent::bench::machine::{CacheMiss, RunEnd};
use metralectl_agent::bench::nodeinfo::{
    built_shas, disabled, node_info, repo_info, signer, BenchNodeInfo, GpuIdentity, NodeFacts,
    RepoReadings,
};
use metralectl_agent::bench::ports_std::{
    bad_params, build, cached_binary, command_failure, known_gates, must_hash, provenance_of, published,
    sha256_file, worktree, BuildStep, Limits, Provenance, Watch, WatchStep, WorktreeStep,
};
use metralectl_agent::bench::records::{collect, state};
use metralectl_agent::bench::reply::{BenchRefusal, BenchRep, MAX_LOG_LINE_BYTES};
use metralectl_agent::bench::runner::{recover, retain, retain_builds, Recovery};
use metralectl_agent::fleet::NodeDescriptor;
use metralectl_agent::json::{parse, Json};
use metralectl_agent::keyed::{keyed_by, put};
use metralectl_agent::node::NodeId;

fn sender() -> NodeId {
    NodeId::parse(&"cd".repeat(32)).unwrap()
}

fn local() -> NodeId {
    NodeId::parse(&"11".repeat(32)).unwrap()
}

fn record(key: &str, now: u64) -> JobRecord {
    JobRecord {
        id: JobStore::mint_id(now, key, sender()),
        key: key.to_owned(),
        sender: sender(),
        spec: JobSpec {
            sha: "ab".repeat(20),
            gate: "decode-floor".to_owned(),
            params: vec![],
            checkpoint: None,
            max_run_s: 600,
        },
        note: None,
        state: JobState::Queued,
        created_at_s: now,
        updated_at_s: now,
        child_pid: None,
        child_start_ticks: None,
        binary_sha256: None,
        records_before: vec![],
        seq_high: 0,
        outcome: None,
    }
}

fn config() -> BenchConfig {
    BenchConfig::minimal(
        "/p/repo".to_owned(),
        "/p/home".to_owned(),
        "gb10".to_owned(),
        "/p/cache".to_owned(),
    )
}

// ---- the child's output ----------------------------------------------------

#[test]
fn the_verdict_line_is_parsed_exactly_as_metrale_prints_it() {
    let v = parse_verdict("  Pass: median decode 26.0 tok/s").unwrap();
    assert_eq!(v.kind, VerdictKind::Pass);
    assert_eq!(v.text, "median decode 26.0 tok/s");
    assert_eq!(
        parse_verdict("  Fail: BELOW THE BASELINE").unwrap().kind,
        VerdictKind::Fail
    );
    assert_eq!(
        parse_verdict("  Info: not scored").unwrap().kind,
        VerdictKind::Info
    );
    // NEGATIVE CONTROLS: prose that mentions the word, and log noise.
    assert!(parse_verdict("this Pass: is not a verdict").is_none());
    assert!(parse_verdict("2026-09-13 INFO met: ready").is_none());
    assert!(parse_verdict("  PASS  decode-floor").is_none());
}

#[test]
fn progress_lines_become_progress_events() {
    match parse_progress("  [  12.3s] isl 512 · conc 8 [3/8]").unwrap() {
        EventKind::Progress { phase, .. } => assert_eq!(phase, "isl 512 · conc 8 [3/8]"),
        other => panic!("{other:?}"),
    }
    assert!(parse_progress("plain line").is_none());
    assert!(
        parse_progress("  [  1.0s]").is_none(),
        "an empty phase is not progress"
    );
}

#[test]
fn log_lines_are_sanitised_and_bounded() {
    assert_eq!(sanitize("a\x1b[31mb\x07c"), "a[31mbc");
    let long = "x".repeat(MAX_LOG_LINE_BYTES + 50);
    let s = sanitize(&long);
    assert!(s.chars().count() <= MAX_LOG_LINE_BYTES + 1);
    assert!(s.ends_with('…'));
}

/// A process is the same one when it started at the same tick.
#[test]
fn start_ticks_are_read_past_the_name_of_the_process() {
    let stat = "4242 (a (b) c) S 1 4242 4242 0 -1 4194560 100 0 0 0 1 2 3 4 20 0 1 0 98765 1000";
    let ticks = start_ticks(stat).expect("reads");
    assert_eq!(ticks, 98765);
    assert!(same_process(Some(ticks), 98765));
    assert!(
        !same_process(Some(ticks), ticks + 1),
        "a different start time is a different process"
    );
    assert!(!same_process(None, ticks));
    assert!(start_ticks("nonsense").is_none());
}

#[test]
fn a_signal_goes_to_the_group_and_then_to_the_process() {
    let (group, single) = kill_group(4242, "-TERM");
    assert_eq!(group, ["-TERM", "--", "-4242"]);
    assert_eq!(single, ["-TERM", "4242"]);
}

// ---- the build cache -------------------------------------------------------

/// The cache rule: provenance for another sha and a tampered binary are both
/// misses.
#[test]
fn a_cached_binary_is_a_hit_only_when_provenance_and_bytes_agree() {
    let sha = "ab".repeat(20);
    let dir = "/p/cache/build/x";
    assert_eq!(cached_binary(dir, &sha, None, None), Err(CacheMiss::NoBuild));

    let bytes = b"binary bytes".to_vec();
    assert_eq!(
        cached_binary(dir, &sha, Some(&bytes), None),
        Err(CacheMiss::NoProvenance)
    );

    let (good_hash, n) = sha256_file(&bytes);
    let prov = |sha: &str, hash: &str| Provenance {
        sha: sha.to_owned(),
        binary_sha256: hash.to_owned(),
        built_at_s: 1,
        bytes: n,
    };
    let other = "cd".repeat(20);
    assert!(matches!(
        cached_binary(dir, &sha, Some(&bytes), Some(&prov(&other, &good_hash))),
        Err(CacheMiss::WrongSha(_))
    ));

    let hit = cached_binary(dir, &sha, Some(&bytes), Some(&prov(&sha, &good_hash)))
        .expect("provenance and bytes agree");
    assert_eq!(hit.path, "/p/cache/build/x/met");
    assert_eq!(hit.sha256, good_hash);

    let tampered = b"tampered".to_vec();
    assert_eq!(
        cached_binary(dir, &sha, Some(&tampered), Some(&prov(&sha, &good_hash))),
        Err(CacheMiss::HashMismatch)
    );
}

#[test]
fn a_file_is_known_by_its_digest() {
    let (hash, n) = sha256_file(&b"abc".to_vec());
    assert_eq!(
        hash,
        "ba7816bf8f01cfea414140de5dae2223b00361a396177a9cb410ff61f20015ad"
    );
    assert_eq!(n, 3);
    let p = provenance_of("s", &b"abc".to_vec(), 5_999);
    assert_eq!((p.binary_sha256, p.built_at_s, p.bytes), (hash, 5, 3));
}

#[test]
fn a_build_is_waited_for_cancelled_or_cut_off() {
    assert_eq!(build(None, false, 10_000, 10, "/l"), BuildStep::Wait);
    assert_eq!(build(Some(true), true, 99_999, 10, "/l"), BuildStep::Built);
    assert_eq!(
        build(Some(false), false, 1, 10, "/l"),
        BuildStep::Failed("cargo build failed (see /l)".to_owned())
    );
    assert_eq!(
        build(None, true, 1, 10, "/l"),
        BuildStep::Terminate("build cancelled".to_owned())
    );
    assert_eq!(
        build(None, false, 10_001, 10, "/l"),
        BuildStep::Kill("build exceeded 10s".to_owned())
    );
}

#[test]
fn a_commit_is_published_when_a_branch_of_the_remote_has_it() {
    assert!(published("  origin/main\n  fork/x\n", "origin"));
    assert!(!published("  fork/main\n", "origin"));
    assert!(!published("  originator/main\n", "origin"));
    assert!(!published("", "origin"));
}

#[test]
fn a_worktree_is_reused_only_at_its_commit() {
    assert_eq!(worktree(false, "", "abc"), WorktreeStep::Create);
    assert_eq!(worktree(true, "abc\n", "abc"), WorktreeStep::Reuse);
    assert_eq!(worktree(true, "def\n", "abc"), WorktreeStep::Replace);
}

#[test]
fn commands_are_rendered_with_no_room_for_an_option() {
    assert_eq!(has_commit_argv("abc"), ["cat-file", "-e", "abc^{commit}"]);
    assert_eq!(fetch_argv("origin"), ["fetch", "--quiet", "--", "origin"]);
    assert_eq!(published_argv("abc"), ["branch", "-r", "--contains", "abc"]);
    assert_eq!(head_argv(), ["rev-parse", "HEAD"]);
    assert_eq!(
        worktree_remove_argv("/w/x"),
        ["worktree", "remove", "--force", "/w/x"]
    );
    assert_eq!(
        worktree_add_argv("/w/x", "abc"),
        ["worktree", "add", "--detach", "--", "/w/x", "abc"]
    );
    assert_eq!(build_argv(), ["build", "--release", "--bin", "met"]);
    assert_eq!(sync_recipes_argv(), ["sync-recipes"]);
    assert_eq!(list_gates_argv(), ["benchmark", "list", "--format", "json"]);
    assert_eq!(
        list_params_argv("decode-floor"),
        ["benchmark", "list", "decode-floor", "--format", "json"]
    );
    assert!(needs_recipes(true, false));
    assert!(!needs_recipes(true, true) && !needs_recipes(false, false));
    assert_eq!(
        command_failure("git", &vec!["fetch".to_owned(), "x".to_owned()], " no\n"),
        "git fetch x: no"
    );
}

/// What the engine lists, and what it does not accept.
#[test]
fn the_engines_own_lists_decide() {
    let list = r#"[{"id":"decode-floor","n":1},{"name":"no-id"},{"id":7},{"id":"vision"}]"#;
    assert_eq!(known_gates(list).unwrap(), ["decode-floor", "vision"]);
    assert_eq!(
        known_gates("[]").unwrap_err(),
        "benchmark list named no benchmarks"
    );
    assert!(known_gates("{oops")
        .unwrap_err()
        .starts_with("benchmark list is not JSON: "));
    let schema = r#"{"params":[{"key":"osl"},{"name":"isl"}]}"#;
    let asked = vec!["osl".to_owned(), "temp".to_owned(), "isl".to_owned()];
    assert_eq!(bad_params(schema, &asked).unwrap(), ["temp"]);
    let other = r#"{"parameters":[{"name":"temp"}]}"#;
    assert_eq!(bad_params(other, &asked).unwrap(), ["osl", "isl"]);
    assert!(bad_params("not json", &Vec::new()).unwrap().is_empty());
    assert!(bad_params("not json", &asked)
        .unwrap_err()
        .starts_with("benchmark schema is not JSON: "));
}

/// A child is read line by line; its verdict is kept, and its end is reported.
#[test]
fn a_watched_child_is_read_and_ends_with_its_verdict() {
    let limits = Limits {
        max_run_s: 30,
        stall_timeout_s: 30,
        cancel_grace_s: 1,
    };
    let mut w = Watch::begin(1_000);
    let (progress, full) = w.line("  [  1.0s] warmup", 1_100);
    assert!(matches!(progress, Some(EventKind::Progress { phase, .. }) if phase == "warmup"));
    assert!(full.is_none());
    w.line("  Fail: below", 1_200);
    assert!(matches!(w.flush(), Some(EventKind::Log { lines, .. }) if lines.len() == 2));
    assert!(w.flush().is_none());
    assert_eq!(w.wait(None, false, limits, 1_300), WatchStep::Wait);
    match w.wait(Some(2), false, limits, 1_400) {
        WatchStep::Ended(RunEnd::Exited { code, verdict }) => {
            assert_eq!(code, 2);
            assert_eq!(verdict.unwrap().kind, VerdictKind::Fail);
        }
        other => panic!("{other:?}"),
    }

    // Cancel: asked to go, then killed after the grace, then over.
    let mut w = Watch::begin(0);
    assert_eq!(w.wait(None, true, limits, 500), WatchStep::Terminate);
    assert_eq!(w.wait(None, true, limits, 1_500), WatchStep::Wait);
    assert_eq!(w.wait(None, true, limits, 1_501), WatchStep::Kill);
    assert_eq!(
        w.wait(Some(-1), true, limits, 1_600),
        WatchStep::Ended(RunEnd::Cancelled)
    );

    // Silence: the stall timeout.
    let mut w = Watch::begin(0);
    w.line("hello", 5_000);
    let tight = Limits {
        max_run_s: 300,
        stall_timeout_s: 10,
        cancel_grace_s: 1,
    };
    assert_eq!(w.wait(None, false, tight, 15_000), WatchStep::Wait);
    assert_eq!(w.wait(None, false, tight, 15_001), WatchStep::Terminate);
    assert_eq!(
        w.wait(Some(0), false, tight, 15_100),
        WatchStep::Ended(RunEnd::Stalled { after_s: 10 })
    );
}

// ---- records ---------------------------------------------------------------

/// The collector must return what THIS job wrote — not everything the
/// directory gained recently.
#[test]
fn a_job_collects_its_own_records_and_not_the_previous_jobs() {
    let gate = "bfcl-subset-echolp";
    let mut dir: Vec<(String, u128)> = Vec::new();
    let write = |dir: &mut Vec<(String, u128)>, name: &str, at: u128| {
        dir.retain(|(n, _)| n != name);
        dir.push((name.to_owned(), at));
    };

    // The previous job's record is already there when this one starts.
    write(&mut dir, "2026-09-17-abc-s2of6.json", 1);
    write(&mut dir, "2026-09-17-abc-s2of6.json.sig", 2);
    let before = state(dir.clone());
    assert_eq!(
        before.len(),
        2,
        "the snapshot must see the neighbour: {before:?}"
    );

    // This job writes its own, in the same second.
    write(&mut dir, "2026-09-17-abc-s4of6.json", 3);
    write(&mut dir, "2026-09-17-abc-s4of6.json.sig", 4);
    let got = collect(gate, &before, &state(dir.clone()));
    let names: Vec<&str> = got.iter().map(|a| a.name.as_str()).collect();
    assert_eq!(
        names,
        vec!["2026-09-17-abc-s4of6.json", "2026-09-17-abc-s4of6.json.sig"],
        "the neighbour's record must not be attributed to this job"
    );
    assert_eq!(got[0].kind, ArtifactKind::Record);
    assert_eq!(got[1].kind, ArtifactKind::Signature);
    assert_eq!(
        got[0].relative_path,
        format!(".benchmarks/{gate}/2026-09-17-abc-s4of6.json")
    );

    // A RE-RUN of the same shard rewrites the same filename: the snapshot
    // compares WHEN each file was written, not just which exist.
    let before2 = state(dir.clone());
    write(&mut dir, "2026-09-17-abc-s4of6.json", 20_000_003);
    let again = collect(gate, &before2, &state(dir.clone()));
    assert_eq!(
        again.iter().map(|a| a.name.as_str()).collect::<Vec<_>>(),
        vec!["2026-09-17-abc-s4of6.json"],
        "a rewritten record is this job's too"
    );

    // NEGATIVE CONTROL: nothing written, nothing collected.
    let before3 = state(dir.clone());
    assert!(
        collect(gate, &before3, &state(dir.clone())).is_empty(),
        "a job that wrote no record must collect nothing"
    );

    // Non-record files in the same directory are never artifacts.
    write(&mut dir, "notes.txt", 5);
    let before4 = state(dir.clone());
    assert!(!before4.iter().any(|(n, _)| n == "notes.txt"));
}

// ---- configuration ---------------------------------------------------------

fn facts() -> Facts {
    Facts {
        repo_has_git: true,
        repo_has_head: false,
        home_is_dir: true,
        prepend_is_dir: vec![],
        fraction_in_range: true,
        fraction: "0.85".to_owned(),
    }
}

/// On any other platform the answer is the platform, not the file.
#[test]
fn a_non_unix_host_is_disabled_before_the_file_is_read() {
    let r = BenchConfig::disabled(false, "/p/bench.yaml", true);
    assert!(r.unwrap().0.contains("Linux only"));
}

#[test]
fn no_file_means_disabled_with_a_reason_not_an_error() {
    let r = BenchConfig::disabled(true, "/p/bench.yaml", false);
    assert!(r.unwrap().0.contains("bench.yaml"));
    assert!(BenchConfig::disabled(true, "/p/bench.yaml", true).is_none());
}

#[test]
fn a_minimal_configuration_has_the_documented_defaults() {
    let cfg = config();
    assert_eq!(cfg.validate(&facts()), Ok(()));
    assert_eq!(cfg.allowed_remote, "origin");
    assert_eq!(cfg.queue_depth, 2);
    assert!(!cfg.allow_unpublished_shas);
    let env = cfg.child_env(&Inherited {
        home: None,
        user: None,
        lang: None,
        term: None,
        path: None,
    });
    assert!(env
        .iter()
        .any(|(k, v)| k == "METRALE_HOME" && v.ends_with("home")));
    assert!(env.iter().any(|(k, _)| k == "CARGO_TARGET_DIR"));
    assert!(env.contains(&("PATH".to_owned(), "/usr/bin:/bin".to_owned())));
    assert_eq!(cfg.jobs_dir(), "/p/cache/jobs");
}

/// NEGATIVE CONTROLS: every named thing must exist, and the refusal names the
/// key.
#[test]
fn a_wrong_configuration_is_refused_naming_the_key() {
    let refused = |cfg: &BenchConfig, f: &Facts, needle: &str| {
        let err = cfg.validate(f).unwrap_err();
        assert!(err.contains(needle), "{needle} → {err}");
    };
    let mut f = facts();
    f.repo_has_git = false;
    refused(&config(), &f, "metrale_repo");
    let mut f = facts();
    f.home_is_dir = false;
    refused(&config(), &f, "metrale_home");
    let mut c = config();
    c.hardware = "gb 10".to_owned();
    refused(&c, &facts(), "hardware \"gb 10\"");
    let mut c = config();
    c.queue_depth = 0;
    refused(&c, &facts(), "queue_depth");
    let mut f = facts();
    f.fraction_in_range = false;
    f.fraction = "1.5".to_owned();
    refused(&config(), &f, "min_free_fraction");
    let mut c = config();
    c.allowed_remote = "a/b".to_owned();
    refused(&c, &facts(), "allowed_remote");
    let mut c = config();
    c.env = vec![("PATH_PREPEND".to_owned(), "/definitely/not/here".to_owned())];
    let mut f = facts();
    f.prepend_is_dir = vec![false];
    refused(&c, &f, "PATH_PREPEND");
}

#[test]
fn path_prepend_goes_first_and_is_not_exported_itself() {
    let mut cfg = config();
    cfg.env = vec![
        ("CUDARC_CUDA_VERSION".to_owned(), "13000".to_owned()),
        ("PATH_PREPEND".to_owned(), "/usr".to_owned()),
    ];
    let env = cfg.child_env(&Inherited {
        home: Some("/h".to_owned()),
        user: None,
        lang: None,
        term: None,
        path: Some("/bin".to_owned()),
    });
    let path = &env.iter().find(|(k, _)| k == "PATH").unwrap().1;
    assert!(path.starts_with("/usr:"), "{path}");
    assert_eq!(path, "/usr:/bin");
    assert!(!env.iter().any(|(k, _)| k == "PATH_PREPEND"));
    assert!(env
        .iter()
        .any(|(k, v)| k == "CUDARC_CUDA_VERSION" && v == "13000"));
    assert_eq!(env[0], ("HOME".to_owned(), "/h".to_owned()));
}

// ---- jobs ------------------------------------------------------------------

#[test]
fn jobs_are_listed_newest_first_and_run_oldest_first() {
    let a = record("k-a", 100);
    let b = record("k-b", 200);
    let ids: Vec<String> = list(vec![a.clone(), b.clone()])
        .into_iter()
        .map(|r| r.id)
        .collect();
    assert_eq!(ids, vec![b.id.clone(), a.id.clone()], "newest first");
    assert_eq!(next_job(vec![b.clone(), a.clone()]).unwrap().id, a.id);
    let mut done = record("k-c", 1);
    done.state = JobState::Done;
    let waiting = queued(vec![b, done, a]);
    assert_eq!(waiting.len(), 2);
    let s = JobStore::new("/p/cache/jobs".to_owned());
    assert_eq!(s.artifacts_dir("jb-1-deadbeef"), "/p/cache/jobs/jb-1-deadbeef/artifacts");
    assert_eq!(s.key_path("k-a"), "/p/cache/jobs/by-key/k-a");
}

#[test]
fn ids_are_stable_for_one_input_and_distinct_across_keys() {
    assert_eq!(
        JobStore::mint_id(5, "x", sender()),
        JobStore::mint_id(5, "x", sender())
    );
    assert_ne!(
        JobStore::mint_id(5, "x", sender()),
        JobStore::mint_id(5, "y", sender())
    );
    assert!(JobStore::mint_id(5, "x", sender()).starts_with("jb-5-"));
    assert!(looks_like_job_id(&JobStore::mint_id(5, "x", sender())));
    for not in ["by-key", "jb-", "jb--deadbeef", "jb-1-DEADBEEF", "jb-1-deadbeef0", "jb-1x-deadbeef"] {
        assert!(!looks_like_job_id(not), "{not}");
    }
}

/// NEGATIVE CONTROLS: a live job cannot be removed; a duplicate create is
/// refused rather than clobbering.
#[test]
fn only_terminal_jobs_may_go_and_nothing_is_written_over() {
    let s = JobStore::new("/j".to_owned());
    let mut a = record("k-a", 100);
    assert_eq!(
        JobStore::may_remove(&a).unwrap_err(),
        format!("refusing to remove {} in state Queued", a.id)
    );
    assert!(s.may_create(&a, true).unwrap_err().contains("already exists"));
    assert!(s.may_create(&a, false).is_ok());
    a.state = JobState::Done;
    assert!(JobStore::may_remove(&a).is_ok());
    assert_eq!(JobStore::indexed("jb-1-deadbeef\n").unwrap(), "jb-1-deadbeef");
    assert!(JobStore::indexed("../etc").is_err());
    assert_eq!(now_s(Some(5_999)), 5);
    assert_eq!(now_s(None), 0);
}

// ---- the journal -----------------------------------------------------------

#[test]
fn appends_number_from_one_and_replay_resumes_from_any_seq() {
    let job = "jb-1-deadbeef".to_owned();
    let mut j = Journal::open(job.clone(), &Vec::new());
    assert_eq!(j.seq_high(), 0);
    let e1 = j.append(EventKind::Queued { position: 1 }, 10).unwrap();
    let e2 = j
        .append(
            EventKind::Progress {
                phase: "warmup".into(),
                detail: String::new(),
            },
            20,
        )
        .unwrap();
    assert_eq!((e1.seq, e2.seq), (1, 2));
    assert_eq!(j.seq_high(), 2);
    let file = || vec![Some(e1.clone()), Some(e2.clone())];
    assert_eq!(replay(file(), 1).unwrap().len(), 2);
    assert_eq!(replay(file(), 2).unwrap(), vec![e2.clone()]);
    assert!(replay(file(), 3).unwrap().is_empty());
    // Reopening resumes the counter from the file, not from zero.
    let mut again = Journal::open(job, &replay(file(), 0).unwrap());
    assert_eq!(again.seq_high(), 2);
    assert_eq!(
        again
            .append(EventKind::Queued { position: 0 }, 30)
            .unwrap()
            .seq,
        3
    );
}

/// NEGATIVE CONTROL: a heartbeat never enters the journal.
#[test]
fn heartbeats_are_refused() {
    let mut j = Journal::open("jb-1-deadbeef".to_owned(), &Vec::new());
    assert!(j
        .append(
            EventKind::Heartbeat {
                state: JobState::Running,
                seq_high: 0
            },
            1
        )
        .is_err());
    assert_eq!(j.seq_high(), 0);
}

#[test]
fn a_torn_last_line_is_dropped_and_any_other_is_corruption() {
    let e = BenchEvent {
        job: "jb-1-deadbeef".to_owned(),
        seq: 1,
        at_ms: 1,
        kind: EventKind::Queued { position: 1 },
    };
    let events = replay(vec![Some(e.clone()), None], 0).unwrap();
    let again = Journal::open("jb-1-deadbeef".to_owned(), &events);
    assert_eq!(again.seq_high(), 1, "the torn tail does not count");
    assert_eq!(replay(vec![Some(e.clone()), None, Some(e)], 0), Err(1));
}

/// An agent that died mid-write left half a line. What is appended after a
/// restart is written behind the whole lines, and is replayed with them.
#[test]
fn an_event_appended_behind_a_torn_line_is_replayed() {
    let mut j = Journal::open("jb-1-deadbeef".to_owned(), &Vec::new());
    let e1 = j.append(EventKind::Queued { position: 1 }, 10).unwrap();
    let torn = vec![Some(e1.clone()), None];
    let mut again = Journal::open("jb-1-deadbeef".to_owned(), &replay(torn.clone(), 0).unwrap());
    let e2 = again.append(EventKind::Queued { position: 0 }, 20).unwrap();
    assert_eq!(e2.seq, 2);
    let mend = before_write(&torn, false);
    assert_eq!(mend, Mend { keep: 1, end_line: false });
    let mut lines = torn;
    lines.truncate(mend.keep);
    lines.push(Some(e2.clone()));
    assert_eq!(replay(lines, 0), Ok(vec![e1.clone(), e2.clone()]));

    // A line that lost only its end is ended and stays; whole lines are left
    // as they are, and so is an empty file.
    let whole = vec![Some(e1), Some(e2)];
    assert_eq!(before_write(&whole, false), Mend { keep: 2, end_line: true });
    assert_eq!(before_write(&whole, true), Mend { keep: 2, end_line: false });
    assert_eq!(before_write(&Vec::new(), true), Mend { keep: 0, end_line: false });
}

// ---- the lease -------------------------------------------------------------

/// Only a lease this agent owns, naming a live pid, is "ours": another
/// owner's is a foreign tenant, and a dead pid is nothing.
#[test]
fn ours_needs_this_owner_and_a_live_pid() {
    let me = 100;
    let lease = |owner: u32| Lease {
        pid: 1,
        port: 40001,
        model: "m".to_owned(),
        owner_pid: owner,
    };
    assert_eq!(path("/h"), "/h/serve-lease.json");
    assert_eq!(ours(None, me, true), None);
    assert_eq!(ours(Some(lease(me)), me, alive(true, true)).map(|l| l.pid), Some(1));
    assert_eq!(
        ours(Some(lease(4_000_000_000 - 3)), me, true),
        None,
        "another owner's lease is not ours"
    );
    assert_eq!(
        ours(Some(lease(me)), me, alive(true, false)),
        None,
        "a dead server is not a lease"
    );
}

/// Without procfs a lease is never ours, so nothing is exempted and nothing is
/// signalled.
#[test]
fn without_procfs_no_lease_is_ever_ours() {
    let lease = Lease {
        pid: 1,
        port: 40001,
        model: "m".to_owned(),
        owner_pid: 100,
    };
    assert_eq!(ours(Some(lease), 100, alive(false, true)), None);
}

#[test]
fn an_idle_server_is_released_after_its_time_and_killed_after_its_grace() {
    let lease = Lease {
        pid: 55,
        port: 40001,
        model: "m".to_owned(),
        owner_pid: 100,
    };
    let first = release_idle_lease(Some(&lease), None, 1_000, 600);
    assert_eq!((first.idle_since_ms, first.release), (Some(1_000), None));
    let late = release_idle_lease(Some(&lease), Some(1_000), 601_000, 600);
    assert_eq!(
        late.release.as_deref(),
        Some("bench: releasing the leased server (pid 55, port 40001, m) after 600 s idle")
    );
    assert_eq!(release_idle_lease(None, Some(1), 2, 600).idle_since_ms, None);
    assert_eq!(release(true, 0, 5_000), ReleaseStep::Wait);
    assert_eq!(release(true, 5_000, 5_000), ReleaseStep::Kill);
    assert_eq!(release(false, 0, 5_000), ReleaseStep::Forget);
    assert_eq!(kill_args(&lease), ["-KILL", "--", "-55"]);
}

// ---- the host --------------------------------------------------------------

fn submission(key: &str) -> Submission {
    Submission {
        job_key: key.to_owned(),
        sha: "ab".repeat(20),
        gate: "decode-floor".to_owned(),
        params: vec![],
        checkpoint: None,
        hardware: None,
        max_run_s: Some(600),
        note: Some("a\u{7}note".to_owned()),
    }
}

fn known(jobs: Vec<JobRecord>, existing: Option<JobRecord>) -> SubmitFacts {
    SubmitFacts {
        params: Ok(()),
        existing: Ok(existing),
        jobs: Ok(jobs),
        disk_free: None,
        now_s: 100,
        now_ms: 100_000,
    }
}

fn refusal(step: SubmitStep) -> BenchRefusal {
    match step {
        SubmitStep::Answer(BenchRep::Refused { by, refusal }) => {
            assert_eq!(by, local());
            refusal
        }
        other => panic!("not a refusal: {other:?}"),
    }
}

#[test]
fn a_submission_becomes_a_job_and_the_same_key_finds_it_again() {
    let mut h = BenchHost::new(config(), local());
    let (job, position) = match h.submit(sender(), submission("k"), known(vec![], None)) {
        SubmitStep::Create {
            record,
            position,
            opening,
        } => {
            assert_eq!(opening, EventKind::Queued { position: 1 });
            (record, position)
        }
        other => panic!("{other:?}"),
    };
    assert_eq!(position, 1);
    assert_eq!(job.id, JobStore::mint_id(100, "k", sender()));
    assert_eq!(job.note.as_deref(), Some("anote"));
    assert_eq!(job.spec.max_run_s, 600);
    match h.created(job.id.clone(), position, Ok(())) {
        BenchRep::Accepted {
            existing, position, ..
        } => assert!(!existing && position == 1),
        other => panic!("{other:?}"),
    }

    let again = h.submit(
        sender(),
        submission("k"),
        known(vec![job.clone()], Some(job.clone())),
    );
    match again {
        SubmitStep::Answer(BenchRep::Accepted { job: id, existing, position, .. }) => {
            assert!(existing);
            assert_eq!((id, position), (job.id.clone(), 1));
        }
        other => panic!("{other:?}"),
    }

    // The same key for something else is a conflict.
    let mut other = submission("k");
    other.gate = "vision".to_owned();
    assert_eq!(
        refusal(h.submit(sender(), other, known(vec![job.clone()], Some(job.clone())))),
        BenchRefusal::KeyConflict { job: job.id }
    );
}

#[test]
fn a_submission_is_refused_for_what_is_wrong_with_it() {
    let mut h = BenchHost::new(config(), local());
    let full = vec![record("a", 1), record("b", 2)];
    assert_eq!(
        refusal(h.submit(sender(), submission("k"), known(full, None))),
        BenchRefusal::QueueFull {
            depth: 2,
            retry_after_s: 300
        }
    );
    let mut low = known(vec![], None);
    low.disk_free = Some(7);
    assert!(matches!(
        refusal(h.submit(sender(), submission("k"), low)),
        BenchRefusal::DiskLow { free_bytes: 7, .. }
    ));
    let mut wrong = submission("k");
    wrong.hardware = Some("h100".to_owned());
    assert!(matches!(
        refusal(h.submit(sender(), wrong, known(vec![], None))),
        BenchRefusal::NotConfigured { what, .. } if what == "this node's box class is gb10, not h100"
    ));
    let mut bad = known(vec![], None);
    bad.params = Err("osl is not a number".to_owned());
    assert_eq!(
        refusal(h.submit(sender(), submission("k"), bad)),
        BenchRefusal::BadParams {
            errors: vec!["osl is not a number".to_owned()]
        }
    );
    let mut blind = known(vec![], None);
    blind.existing = Err("denied".to_owned());
    assert!(matches!(
        refusal(h.submit(sender(), submission("k"), blind)),
        BenchRefusal::NotConfigured { what, .. } if what == "the job store is unreadable: denied"
    ));
}

/// The allowance is per machine and per minute.
#[test]
fn a_flood_of_submissions_is_limited_until_a_minute_has_passed() {
    let mut h = BenchHost::new(config(), local());
    let mut at = known(vec![], None);
    let mut limited = false;
    for _ in 0..1_000 {
        let facts = known(vec![], None);
        if let SubmitStep::Answer(BenchRep::Refused { refusal, .. }) =
            h.submit(sender(), submission("k"), facts)
        {
            assert_eq!(refusal, BenchRefusal::RateLimited { retry_after_s: 60 });
            limited = true;
            break;
        }
    }
    assert!(limited);
    assert!(matches!(
        h.submit(local(), submission("k"), known(vec![], None)),
        SubmitStep::Create { .. }
    ));
    at.now_ms += 60_001;
    assert!(matches!(
        h.submit(sender(), submission("k"), at),
        SubmitStep::Create { .. }
    ));
}

#[test]
fn a_cancel_ends_a_queued_job_and_signals_a_running_one() {
    let mut h = BenchHost::new(config(), local());
    let job = record("k", 1);
    match h.cancel(job.id.clone(), Some(job.clone()), 9) {
        CancelStep::Close {
            record,
            closing,
            reply,
        } => {
            assert_eq!(
                closing,
                EventKind::Done {
                    outcome: Outcome::Cancelled { by: local() }
                }
            );
            assert_eq!(record.state, JobState::Done);
            assert_eq!(record.outcome, Some(Outcome::Cancelled { by: local() }));
            assert_eq!(record.updated_at_s, 9);
            assert!(matches!(reply, BenchRep::Cancelled { state: JobState::Done, .. }));
        }
        other => panic!("{other:?}"),
    }
    let mut running = job.clone();
    running.state = JobState::Running;
    h.register_cancel(&job.id);
    assert!(!h.cancelled(&job.id));
    assert!(matches!(
        h.cancel(job.id.clone(), Some(running), 9),
        CancelStep::Answer(BenchRep::Cancelled { state: JobState::Running, .. })
    ));
    assert!(h.cancelled(&job.id));
    h.forget_cancel(&job.id);
    assert!(!h.cancelled(&job.id));
    assert!(matches!(
        h.cancel("jb-1-deadbeef".to_owned(), None, 9),
        CancelStep::Answer(BenchRep::Refused { refusal: BenchRefusal::UnknownJob { .. }, .. })
    ));
}

/// Asking twice for a job to end is asking once.
#[test]
fn cancelling_a_job_again_changes_nothing() {
    let mut h = BenchHost::new(config(), local());
    let job = record("k", 1);
    let closed = match h.cancel(job.id.clone(), Some(job.clone()), 9) {
        CancelStep::Close { record, .. } => record,
        other => panic!("{other:?}"),
    };
    match h.cancel(job.id.clone(), Some(closed), 12) {
        CancelStep::Answer(rep) => assert_eq!(
            rep,
            BenchRep::Cancelled {
                job: job.id.clone(),
                state: JobState::Done
            }
        ),
        other => panic!("{other:?}"),
    }
    let mut running = job.clone();
    running.state = JobState::Running;
    h.register_cancel(&job.id);
    for _ in 0..2 {
        match h.cancel(job.id.clone(), Some(running.clone()), 13) {
            CancelStep::Answer(rep) => assert_eq!(
                rep,
                BenchRep::Cancelled {
                    job: job.id.clone(),
                    state: JobState::Running
                }
            ),
            other => panic!("{other:?}"),
        }
        assert!(h.cancelled(&job.id));
    }
}

/// A JSON text is read into plain values, and a text that is none says why.
#[test]
fn a_json_text_is_read_into_plain_values() {
    let j = parse(r#"{"a":[1,"x",null,true],"b":{"c":2.5}}"#).expect("reads");
    let a = j.get("a").and_then(Json::list).expect("a list");
    assert_eq!(
        *a,
        vec![
            Json::Number("1".to_owned()),
            Json::Text("x".to_owned()),
            Json::Null,
            Json::Bool(true),
        ]
    );
    let b = j.get("b").expect("an object");
    assert_eq!(b.get("c"), Some(&Json::Number("2.5".to_owned())));
    assert!(b.get("d").is_none());
    assert!(a[0].as_text().is_none());
    assert_eq!(a[1].as_text().map(String::as_str), Some("x"));
    assert!(j.list().is_none());
    assert!(parse("{\"a\":").unwrap_err().contains("EOF"));
}

/// An artifact is served by a bare name from the job's own manifest, in
/// pieces.
#[test]
fn an_artifact_is_named_in_the_manifest_and_never_a_path() {
    let h = BenchHost::new(config(), local());
    let job = record("k", 1);
    let meta = ArtifactMeta {
        name: "r.json".to_owned(),
        relative_path: ".benchmarks/decode-floor/r.json".to_owned(),
        bytes: 3,
        sha256: "aa".repeat(32),
        kind: ArtifactKind::Record,
    };
    let events = vec![BenchEvent {
        job: job.id.clone(),
        seq: 1,
        at_ms: 1,
        kind: EventKind::Artifact { meta },
    }];
    let items = h.artifact_list(&job, &events, Some((9, "bb".repeat(32))));
    assert_eq!(items.len(), 2);
    assert_eq!(items[1].relative_path, ".certify/ababababab/decode-floor.log");
    let dir = format!("/p/cache/jobs/{}", job.id);
    assert_eq!(
        h.chunk_path(&job.id, "r.json", Some(&items)).unwrap(),
        format!("{dir}/artifacts/r.json")
    );
    assert_eq!(
        h.chunk_path(&job.id, "child.log", Some(&items)).unwrap(),
        format!("{dir}/child.log")
    );
    for bad in ["../job.json", "a\\b", ".hidden", "other.json"] {
        assert!(matches!(
            h.chunk_path(&job.id, bad, Some(&items)),
            Err(BenchRep::Refused { refusal: BenchRefusal::NoSuchArtifact { .. }, .. })
        ));
    }
    assert!(h.chunk_path(&job.id, "r.json", None).is_err());
    assert_eq!(BenchHost::chunk_len(10), 10);
    assert_eq!(BenchHost::chunk_len(u32::MAX), 262_144);
    match h.chunk(job.id.clone(), "r.json".to_owned(), 2, &b"abc".to_vec(), 5) {
        BenchRep::Chunk { data_b64, eof, offset, .. } => {
            assert_eq!(data_b64, "YWJj");
            assert!(eof);
            assert_eq!(offset, 2);
        }
        other => panic!("{other:?}"),
    }
    assert!(matches!(
        h.chunk(job.id, "r.json".to_owned(), 0, &b"abc".to_vec(), 5),
        BenchRep::Chunk { eof: false, .. }
    ));
}

// ---- the runner ------------------------------------------------------------

#[test]
fn a_restart_takes_up_what_still_runs_and_orphans_the_rest() {
    let mut job = record("k", 1);
    assert_eq!(recover(&job, None), Recovery::Leave);
    job.state = JobState::Building;
    assert_eq!(
        recover(&job, None),
        Recovery::Orphan("the agent restarted mid-job".to_owned())
    );
    job.state = JobState::Running;
    job.child_pid = Some(7);
    job.child_start_ticks = Some(99);
    assert_eq!(recover(&job, Some(99)), Recovery::Resume);
    assert_eq!(
        recover(&job, Some(100)),
        Recovery::Orphan("the agent restarted and the child was gone".to_owned())
    );
}

#[test]
fn old_jobs_and_old_builds_go_but_never_the_running_build() {
    let mut jobs: Vec<JobRecord> = (0..4).map(|i| record(&format!("k{i}"), 1_000_000 + i)).collect();
    for j in jobs.iter_mut().take(3) {
        j.state = JobState::Done;
    }
    let gone = retain(jobs.clone(), 1_000_010, 2, 7);
    assert_eq!(gone.len(), 1, "two of three finished jobs are kept");
    assert_eq!(gone[0].key, "k0");
    assert_eq!(retain(jobs, 1_000_010 + 8 * 86_400, 2, 7).len(), 3);

    let builds = vec![
        (1, "old".to_owned()),
        (3, "new".to_owned()),
        (2, "mid".to_owned()),
    ];
    let out = retain_builds(builds.clone(), 1, Some("old".to_owned()));
    assert_eq!(out, vec![(2, "mid".to_owned())]);
    assert_eq!(retain_builds(builds, 5, None), vec![]);
}

// ---- what a node says of itself --------------------------------------------

#[test]
fn a_node_is_named_by_the_key_it_signs_with() {
    let key = ed25519_dalek::SigningKey::from_bytes(&[7u8; 32]);
    let der = key.to_pkcs8_der().expect("encodes").as_bytes().to_vec();
    let (name, hex) = signer(&Some(der));
    let public: String = key
        .verifying_key()
        .to_bytes()
        .iter()
        .map(|b| format!("{b:02x}"))
        .collect();
    assert_eq!(hex.as_deref(), Some(public.as_str()));
    let digest = sha256_file(&key.verifying_key().to_bytes().to_vec()).0;
    assert!(name.unwrap().contains(&digest[..16]));
    assert_eq!(signer(&Some(b"junk".to_vec())), (None, None));
    assert_eq!(signer(&None), (None, None));
}

#[test]
fn a_checkout_is_described_as_far_as_it_reads() {
    let r = repo_info(
        "/p/repo",
        "origin",
        &RepoReadings {
            remote_url: Some("git@x:y.git\n".to_owned()),
            head: Some(format!("{}\n", "ab".repeat(20))),
            fetched_at_s: Some(4),
        },
    );
    assert_eq!(r.remote_url, "git@x:y.git");
    assert_eq!(r.head_sha, Some("ab".repeat(20)));
    let none = repo_info(
        "/p/repo",
        "origin",
        &RepoReadings {
            remote_url: None,
            head: Some("fatal: no HEAD".to_owned()),
            fetched_at_s: None,
        },
    );
    assert_eq!((none.remote_url.as_str(), none.head_sha), ("", None));
    let p = |at: u64| Provenance {
        sha: "s".to_owned(),
        binary_sha256: "h".to_owned(),
        built_at_s: at,
        bytes: 1,
    };
    let order: Vec<u64> = built_shas(vec![p(1), p(3), p(2)]).iter().map(|b| b.built_at_s).collect();
    assert_eq!(order, [3, 2, 1]);
}

#[test]
fn a_report_says_what_the_node_has_or_why_it_has_nothing() {
    let h = BenchHost::new(config(), local());
    let rows: Vec<NodeDescriptor<f32>> = Vec::new();
    let info: BenchNodeInfo<f32, u8> = node_info(
        &h,
        &rows,
        NodeFacts {
            agent_version: "0.1.3".to_owned(),
            peer_version_max: 2,
            gpu: Some(GpuIdentity {
                name: "GB10".to_owned(),
                driver: "580".to_owned(),
                count: 1,
                cuda: None,
            }),
            thermal: 5u8,
            busy: vec!["a container is running".to_owned()],
            key_document: None,
            repo: RepoReadings {
                remote_url: None,
                head: None,
                fetched_at_s: None,
            },
            recipes_synced: true,
            builds: vec![],
            running: None,
            jobs: Ok(vec![record("k", 1)]),
            disk_free_bytes: Some(1.0),
            free_fraction: Some(0.9),
            min_free_fraction: 0.85,
        },
    );
    assert!(info.bench_enabled);
    assert_eq!(info.hardware_class.as_deref(), Some("gb10"));
    assert_eq!(info.thermal, Some(5));
    assert_eq!(info.name, "unknown");
    assert!(info.busy);
    assert_eq!(info.busy_reason.as_deref(), Some("a container is running"));
    assert_eq!((info.queued, info.queue_depth), (1, 2));

    let off: BenchNodeInfo<f32, u8> = disabled(local(), "spark", "no bench.yaml", "0.1.3", 2, 0.0);
    assert!(!off.bench_enabled);
    assert_eq!(off.disabled_reason.as_deref(), Some("no bench.yaml"));
    assert_eq!(off.name, "spark");
}

/// The journal of a job opens with its place, and ends with how it was
/// cancelled.
#[test]
fn a_journal_opens_with_the_place_and_ends_with_the_cancellation() {
    let mut h = BenchHost::new(config(), local());
    let (job, opening) = match h.submit(sender(), submission("k"), known(vec![], None)) {
        SubmitStep::Create { record, opening, .. } => (record, opening),
        other => panic!("{other:?}"),
    };
    let mut j = Journal::open(job.id.clone(), &Vec::new());
    let first = j.append(opening, 1).unwrap();
    let closing = match h.cancel(job.id.clone(), Some(job.clone()), 9) {
        CancelStep::Close { closing, .. } => closing,
        other => panic!("{other:?}"),
    };
    let last = j.append(closing, 2).unwrap();
    let events = replay(vec![Some(first), Some(last)], 1).unwrap();
    assert_eq!(events[0].kind, EventKind::Queued { position: 1 });
    assert_eq!(
        events[1].kind,
        EventKind::Done {
            outcome: Outcome::Cancelled { by: local() }
        }
    );
}

/// Parameters are compared by name, however they were written down.
#[test]
fn parameters_are_kept_by_name() {
    let pair = |k: &str, v: &str| (k.to_owned(), v.to_owned());
    let a = keyed_by(vec![pair("osl", "8"), pair("isl", "2"), pair("osl", "16")]);
    assert_eq!(a, [pair("isl", "2"), pair("osl", "16")], "the last one counts");
    let b = keyed_by(vec![pair("isl", "2"), pair("osl", "16")]);
    let spec = |params: Vec<(String, String)>| JobSpec {
        params,
        ..record("k", 1).spec
    };
    assert!(spec(a.clone()).same_as(&spec(b)));
    let mut c = a.clone();
    put(&mut c, "isl".to_owned(), "3".to_owned());
    assert_eq!(c, [pair("isl", "3"), pair("osl", "16")]);
    put(&mut c, "a".to_owned(), "0".to_owned());
    put(&mut c, "z".to_owned(), "9".to_owned());
    assert_eq!(
        c,
        [pair("a", "0"), pair("isl", "3"), pair("osl", "16"), pair("z", "9")]
    );
    assert!(!spec(a).same_as(&spec(c)));
}

/// The bytes of a piece are in standard base64, padded to whole groups.
#[test]
fn a_piece_is_sent_in_padded_base64() {
    let h = BenchHost::new(config(), local());
    for (bytes, text) in [
        (vec![], ""),
        (vec![0xfb], "+w=="),
        (vec![0xfb, 0xff], "+/8="),
        (vec![0, 16, 131], "ABCD"),
        (vec![0xff, 0xff, 0xff, 0x61], "////YQ=="),
    ] {
        match h.chunk("j".to_owned(), "r.json".to_owned(), 0, &bytes, 9) {
            BenchRep::Chunk { data_b64, .. } => assert_eq!(data_b64, text),
            other => panic!("{other:?}"),
        }
    }
}

/// The directories before the search path are asked after one by one, in the
/// order in which they are judged.
#[test]
fn the_directories_before_the_search_path_are_told_one_by_one() {
    let mut c = config();
    assert!(c.prepend_dirs().is_empty());
    c.env = keyed_by(vec![("PATH_PREPEND".to_owned(), "/a:/b::/c".to_owned())]);
    assert_eq!(c.prepend_dirs(), ["/a", "/b", "", "/c"]);
    let mut f = facts();
    f.prepend_is_dir = vec![true, false, true, true];
    assert_eq!(
        c.validate(&f),
        Err("env.PATH_PREPEND names /b, which is not a directory".to_owned())
    );
    f.prepend_is_dir = vec![true; 4];
    assert_eq!(c.validate(&f), Ok(()));
}

/// A binary is hashed where its provenance names the commit, and else not
/// looked into.
#[test]
fn a_binary_is_hashed_only_for_its_own_commit() {
    let sha = "ab".repeat(20);
    let of = |sha: &str| provenance_of(sha, &b"bytes".to_vec(), 1_000);
    assert!(!must_hash(&sha, None));
    assert!(!must_hash(&sha, Some(&of(&"cd".repeat(20)))));
    assert!(must_hash(&sha, Some(&of(&sha))));
}
