use metralectl_agent::error::AgentError;
use metralectl_agent::launcher::docker::{
    clear_argv, is_recipe_name, launched, list_argv, listed, plan, preview, refuse_model, running,
    running_argv, stopped, CacheState, LaunchPlan, Output,
};
use metralectl_agent::launcher::{RunningLaunch, Started};
use metralectl_agent::launchstats::{LaunchSampler, MAX_WINDOW};

fn ok(stdout: &str) -> Output {
    Output {
        status: 0,
        stdout: stdout.to_owned(),
        stderr: String::new(),
    }
}

fn failed(status: i32, stderr: &str) -> Output {
    Output {
        status,
        stdout: String::new(),
        stderr: stderr.to_owned(),
    }
}

/// A runtime that records what it was told and answers from a script.
struct Runner {
    script: Vec<Output>,
    calls: Vec<Vec<String>>,
}

impl Runner {
    fn new(script: Vec<Output>) -> Self {
        Runner {
            script,
            calls: Vec::new(),
        }
    }

    fn run(&mut self, argv: Vec<String>) -> Result<Output, String> {
        self.calls.push(argv);
        Ok(if self.script.is_empty() {
            ok("")
        } else {
            self.script.remove(0)
        })
    }

    fn launch(&mut self, translated: LaunchPlan, state: CacheState) -> Result<Started, AgentError> {
        let p = plan("r", Ok(translated))?;
        if let Some(e) = refuse_model(&p, "org/m", "/cache", Some(state)) {
            return Err(e);
        }
        let _ = self.run(clear_argv(&p.name));
        let mut argv = vec!["docker".to_owned(), "run".to_owned()];
        argv.extend(p.command.clone());
        let out = self.run(argv);
        launched(p, out)
    }

    fn stop(&mut self, recipe: &str) -> Result<(), AgentError> {
        let out = self.run(list_argv(recipe));
        let argv = listed(recipe, out)?;
        stopped(self.run(argv))
    }

    fn running(&mut self) -> Result<Vec<RunningLaunch>, AgentError> {
        let out = self.run(running_argv());
        running(out)
    }
}

fn translated(port: &str) -> LaunchPlan {
    LaunchPlan {
        name: "metrale-r".to_owned(),
        command: ["met", "serve", "org/m", "--port", port]
            .iter()
            .map(|s| (*s).to_owned())
            .collect(),
        auto_remove: true,
        unmapped: vec!["odd".to_owned()],
    }
}

#[test]
fn preview_renders_the_command_without_running_anything() {
    let p = plan("r", Ok(translated("8888"))).expect("plans");
    assert!(!p.auto_remove, "a container that dies keeps its logs");
    let shown = preview(p, "docker run met serve org/m".to_owned());
    assert!(shown.command.starts_with("docker run"), "{}", shown.command);
    assert!(shown.command.contains("met serve org/m"));
    assert_eq!(shown.unapplied, ["odd"]);
}

#[test]
fn launching_removes_a_stale_container_first_then_runs() {
    let mut runner = Runner::new(vec![]);
    runner
        .launch(translated("8888"), CacheState::Weights)
        .expect("launches");
    let calls = &runner.calls;
    assert_eq!(
        calls[0][..3],
        ["docker", "rm", "-f"],
        "stale container is cleared first"
    );
    assert_eq!(calls[0][3], "metrale-r");
    assert_eq!(calls[1][..2], ["docker", "run"]);
}

#[test]
fn a_failed_docker_run_is_reported_with_its_stderr() {
    let mut runner = Runner::new(vec![ok(""), failed(125, "no such image")]);
    let err = runner
        .launch(translated("8888"), CacheState::Weights)
        .expect_err("must fail");
    match err {
        AgentError::LaunchFailed { detail } => {
            assert_eq!(detail, "docker run exited 125: no such image");
        }
        other => panic!("{other:?}"),
    }
}

#[test]
fn the_endpoint_reflects_the_resolved_port() {
    let mut runner = Runner::new(vec![]);
    let started = runner
        .launch(translated("8888"), CacheState::Weights)
        .expect("launches");
    assert_eq!(started.container, "metrale-r");
    assert_eq!(
        started.endpoint.as_deref(),
        Some("http://localhost:8888/v1")
    );
    // A worker rank is bound to port 0 and serves nothing.
    let worker = runner
        .launch(translated("0"), CacheState::Weights)
        .expect("launches");
    assert_eq!(worker.endpoint, None);
}

#[test]
fn an_override_reaches_the_executed_command() {
    let mut runner = Runner::new(vec![]);
    let started = runner
        .launch(translated("9100"), CacheState::Weights)
        .expect("launches");
    assert_eq!(
        started.endpoint.as_deref(),
        Some("http://localhost:9100/v1")
    );
    let run = runner
        .calls
        .iter()
        .find(|c| c.get(1).map(String::as_str) == Some("run"))
        .unwrap();
    assert!(run.windows(2).any(|w| w == ["--port", "9100"]));
}

/// Nothing labelled: fall back to our own name, and never a wider pattern.
#[test]
fn stop_falls_back_to_our_own_container_name_when_nothing_is_labelled() {
    let mut runner = Runner::new(vec![]);
    runner.stop("r").expect("stops");
    let calls = &runner.calls;
    assert!(
        calls[0]
            .iter()
            .any(|a| a.contains("io.metralectl.recipe=r")),
        "must ask docker by OUR label first: {calls:?}"
    );
    assert_eq!(
        calls.last().expect("a stop"),
        &["docker", "stop", "metrale-r"],
        "and fall back to the exact name, not a pattern: {calls:?}"
    );
}

/// A cluster rank is `metrale-{recipe}-rank{n}`, so stopping by NAME never
/// found one.
#[test]
fn stop_reaches_rank_containers_a_name_match_would_miss() {
    let mut runner = Runner::new(vec![ok("abc123\ndef456\n")]);
    runner.stop("r").expect("stops");
    let calls = &runner.calls;
    assert_eq!(
        calls.last().expect("a stop"),
        &["docker", "stop", "abc123", "def456"],
        "every labelled container must be stopped, ranks included: {calls:?}"
    );
}

#[test]
fn a_stop_that_fails_says_why() {
    let mut runner = Runner::new(vec![failed(1, " no daemon \n")]);
    assert!(matches!(
        runner.stop("r"),
        Err(AgentError::LaunchFailed { detail }) if detail == "no daemon"
    ));
    let mut runner = Runner::new(vec![ok("abc\n"), failed(1, "busy")]);
    assert!(matches!(
        runner.stop("r"),
        Err(AgentError::LaunchFailed { detail }) if detail == "busy"
    ));
    assert!(matches!(
        stopped(Err("no docker".to_owned())),
        Err(AgentError::LaunchFailed { detail }) if detail == "no docker"
    ));
}

#[test]
fn running_launches_are_found_by_label_and_mapped_back_to_recipes() {
    let mut runner = Runner::new(vec![ok(
        "metrale-qwen3.6-27b-fp8\tUp 3 minutes\nsomeone-elses-container\tUp 1 hour\n",
    )]);
    let running = runner.running().expect("lists");

    // The docker query must filter by our label, so an unrelated container is
    // never a candidate for us to stop.
    assert!(runner.calls[0]
        .iter()
        .any(|a| a.contains("io.metralectl.managed=1")));

    assert_eq!(running[0].recipe.as_deref(), Some("qwen3.6-27b-fp8"));
    assert_eq!(running[0].status, "Up 3 minutes");
    // A container that is not ours by naming convention still lists, with no
    // recipe attached, rather than being silently dropped.
    assert_eq!(running[1].recipe, None);
}

#[test]
fn docker_being_unavailable_is_reported_as_such() {
    let mut runner = Runner::new(vec![failed(1, "cannot connect to the docker daemon")]);
    let err = runner.running().expect_err("must fail");
    assert!(
        matches!(err, AgentError::DockerUnavailable { .. }),
        "{err:?}"
    );
}

/// A model that is not in the cache is refused BEFORE docker is invoked.
#[test]
fn a_model_missing_from_the_cache_is_refused_without_running_docker() {
    let mut runner = Runner::new(vec![]);
    let err = runner
        .launch(translated("8888"), CacheState::Absent)
        .expect_err("an absent model must be refused");
    let AgentError::LaunchFailed { detail } = err else {
        panic!("expected LaunchFailed, got {err:?}");
    };
    assert!(detail.contains("org/m"), "must name the model: {detail}");
    assert!(
        detail.contains("hf download"),
        "must say how to fix it: {detail}"
    );
    assert!(
        runner.calls.is_empty(),
        "docker must not be invoked at all, got {:?}",
        runner.calls
    );
}

/// A cache directory that exists but holds no weights is refused, and says so.
#[test]
fn a_metadata_only_cache_entry_is_refused_and_named_as_such() {
    let mut runner = Runner::new(vec![]);
    let err = runner
        .launch(translated("8888"), CacheState::MetadataOnly)
        .expect_err("a weightless cache entry must be refused");
    let AgentError::LaunchFailed { detail } = err else {
        panic!("expected LaunchFailed, got {err:?}");
    };
    assert!(
        detail.contains("no weight files"),
        "must name the real state rather than claiming absence: {detail}"
    );
    assert!(runner.calls.is_empty(), "docker must not be invoked");
}

/// A recipe that brings its own weights is NOT refused for a cache miss.
#[test]
fn a_recipe_that_brings_its_own_weights_is_not_refused() {
    let mut runner = Runner::new(vec![]);
    let mut own = translated("8888");
    own.command.push("--model-from-path".to_owned());
    own.command.push("/models/local".to_owned());
    let started = runner
        .launch(own, CacheState::Absent)
        .expect("must not be refused");
    assert_eq!(started.container, "metrale-r");
    let ran = runner.calls.concat().join(" ");
    assert!(
        ran.contains("--model-from-path"),
        "the flag must reach the command: {ran}"
    );
}

/// A recipe that does not translate is named, where its name is one.
#[test]
fn a_recipe_that_does_not_translate_is_not_launchable() {
    assert!(matches!(
        plan("r", Err("no image".to_owned())),
        Err(AgentError::NotLaunchable { recipe, reason }) if recipe == "r" && reason == "no image"
    ));
    assert!(matches!(
        plan("a b", Err("no image".to_owned())),
        Err(AgentError::NotLaunchable { recipe, .. }) if recipe == "unknown"
    ));
    assert!(is_recipe_name("qwen3.6-27b_fp8"));
    assert!(!is_recipe_name("") && !is_recipe_name("a/b"));
}

/// A rate needs two samples, and they must be close.
#[test]
fn a_sample_is_held_against_the_one_before_it() {
    let second = 1_000_000_000;
    let mut s: LaunchSampler<u32> = LaunchSampler::new();
    assert_eq!(s.sample(10 * second, Ok(100)), Ok(None), "a rate needs two");
    assert_eq!(
        s.sample(12 * second, Ok(340)),
        Ok(Some((100, 2 * second))),
        "the sample before, and the time between"
    );
    assert_eq!(s.sample(12 * second, Ok(341)), Ok(None), "no time has passed");
    assert_eq!(s.sample(12 * second + MAX_WINDOW + 1, Ok(400)), Ok(None), "too long ago");
    s.reset();
    assert_eq!(s.sample(90 * second, Ok(500)), Ok(None), "a reset forgets");
}

/// A model that does not answer is an error, and costs nothing that was
/// sampled before.
#[test]
fn a_model_that_does_not_answer_keeps_the_sample_before() {
    let second = 1_000_000_000;
    let mut s: LaunchSampler<u32> = LaunchSampler::new();
    assert_eq!(s.sample(second, Ok(7)), Ok(None));
    assert_eq!(
        s.sample(2 * second, Err("not answering".to_owned())),
        Err("not answering".to_owned())
    );
    assert_eq!(s.sample(4 * second, Ok(9)), Ok(Some((7, 3 * second))));
}
