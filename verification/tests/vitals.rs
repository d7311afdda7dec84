use metralectl_agent::fleet::vitals::{
    docker_probe_argv, memory_ratio, running_probe_argv, DockerRunning, RunningSource,
};

/// An operator's own containers must not be listed as ours, nor ours
/// confused for theirs.
#[test]
fn the_probe_asks_only_for_containers_we_manage() {
    let argv = running_probe_argv();
    assert_eq!(argv[0], "docker");
    assert!(
        argv.iter().any(|a| a.contains("io.metralectl.managed=1")),
        "{argv:?}"
    );
    assert!(
        argv.iter().any(|a| a.contains("io.metralectl.recipe")),
        "{argv:?}"
    );
}

#[test]
fn a_running_recipe_is_reported() {
    let src = DockerRunning {
        answered: true,
        stdout: "qwen3.6-35b-a3b-fp8-bf16head\n".to_owned(),
    };
    assert_eq!(
        src.running().as_deref(),
        Some("qwen3.6-35b-a3b-fp8-bf16head")
    );
}

#[test]
fn nothing_running_is_reported_as_nothing() {
    let src = DockerRunning {
        answered: true,
        stdout: String::new(),
    };
    assert_eq!(src.running(), None);
}

/// A container runtime that is not answering is not the same as an idle
/// machine, and neither is reported as a recipe.
#[test]
fn an_unavailable_runtime_reports_nothing_rather_than_garbage() {
    let src = DockerRunning {
        answered: false,
        stdout: String::new(),
    };
    assert_eq!(src.running(), None);
    let noisy = DockerRunning {
        answered: false,
        stdout: "Cannot connect to the Docker daemon".to_owned(),
    };
    assert_eq!(noisy.running(), None);
}

/// Blank lines come back for a container whose label is missing; they are
/// not a recipe name.
#[test]
fn blank_lines_are_not_recipe_names() {
    let src = DockerRunning {
        answered: true,
        stdout: "\n\n  \nreal-recipe\n".to_owned(),
    };
    assert_eq!(src.running().as_deref(), Some("real-recipe"));
}

#[test]
fn the_share_of_memory_needs_both_counts_and_some_memory() {
    assert_eq!(memory_ratio(Some(3), Some(4)), Some((3, 4)));
    assert_eq!(memory_ratio(Some(3), Some(0)), None);
    assert_eq!(memory_ratio(None, Some(4)), None);
    assert_eq!(memory_ratio(Some(3), None), None);
    assert_eq!(
        docker_probe_argv(),
        ["docker", "info", "--format", "{{.ServerVersion}}"]
    );
}
