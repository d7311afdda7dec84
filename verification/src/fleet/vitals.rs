//! Where this machine's numbers come from.
//!
//! A field the hardware cannot answer is unsupported, never zero. Readings
//! are of a type `F` that the caller chooses; nothing here computes with
//! them.
use crate::text;
use vstd::prelude::*;

verus! {

/// A reading, or that there is none to be had.
#[derive(Debug, Clone, Copy, PartialEq)]
pub enum Metric<F> {
    Unsupported,
    Reading(F),
}

impl<F: Copy> Metric<F> {
    /// What an optional reading comes to.
    pub open spec fn of(o: Option<F>) -> Metric<F> {
        match o {
            Some(v) => Metric::Reading(v),
            None => Metric::Unsupported,
        }
    }

    /// What an optional reading comes to.
    pub fn from_option(o: Option<F>) -> (r: Metric<F>)
        ensures
            r == Self::of(o),
    {
        match o {
            Some(v) => Metric::Reading(v),
            None => Metric::Unsupported,
        }
    }
}

/// How a machine is doing.
#[derive(Debug, Clone, Copy, PartialEq)]
pub struct NodeVitals<F> {
    pub accelerator_util: Metric<F>,
    pub sm_clock_mhz: Metric<F>,
    pub sm_clock_healthy_mhz: Option<u32>,
    pub temperature_c: Metric<F>,
    pub power_w: Metric<F>,
    pub memory_used_frac: Metric<F>,
    pub memory_total_bytes: Metric<F>,
    pub disk_free_bytes: Metric<F>,
    pub docker_ok: bool,
    pub agent_uptime_s: u64,
}

/// Vitals a provider could not supply at all.
pub open spec fn nothing_known<F>() -> NodeVitals<F> {
    NodeVitals {
        accelerator_util: Metric::Unsupported,
        sm_clock_mhz: Metric::Unsupported,
        sm_clock_healthy_mhz: None,
        temperature_c: Metric::Unsupported,
        power_w: Metric::Unsupported,
        memory_used_frac: Metric::Unsupported,
        memory_total_bytes: Metric::Unsupported,
        disk_free_bytes: Metric::Unsupported,
        docker_ok: false,
        agent_uptime_s: 0,
    }
}

/// Vitals a provider could not supply at all.
pub fn no_vitals<F>() -> (r: NodeVitals<F>)
    ensures
        r == nothing_known::<F>(),
{
    NodeVitals {
        accelerator_util: Metric::Unsupported,
        sm_clock_mhz: Metric::Unsupported,
        sm_clock_healthy_mhz: None,
        temperature_c: Metric::Unsupported,
        power_w: Metric::Unsupported,
        memory_used_frac: Metric::Unsupported,
        memory_total_bytes: Metric::Unsupported,
        disk_free_bytes: Metric::Unsupported,
        docker_ok: false,
        agent_uptime_s: 0,
    }
}

/// What a device answered, each number in the form it is shown in.
#[derive(Debug, Clone, Copy, PartialEq)]
pub struct DeviceReadings<F> {
    pub gpu_util_pct: Option<F>,
    pub sm_clock_mhz: Option<F>,
    pub temperature_c: Option<F>,
    pub power_w: Option<F>,
    pub memory_used_frac: Option<F>,
    pub memory_total_bytes: Option<F>,
}

/// The two counts whose ratio is the share of memory in use: where both are
/// known, and there is memory at all.
pub fn memory_ratio(used: Option<u64>, total: Option<u64>) -> (r: Option<(u64, u64)>)
    ensures
        r == (match (used, total) {
            (Some(u), Some(t)) => if t > 0 {
                Some((u, t))
            } else {
                None
            },
            _ => None,
        }),
{
    match (used, total) {
        (Some(u), Some(t)) => if t > 0 {
            Some((u, t))
        } else {
            None
        },
        _ => None,
    }
}

/// Turns a device sample into node vitals. What is absent stays absent.
pub fn vitals_from_device<F: Copy>(
    d: &DeviceReadings<F>,
    disk_free_bytes: Option<F>,
    docker_ok: bool,
    uptime_s: u64,
    healthy_clock_mhz: Option<u32>,
) -> (r: NodeVitals<F>)
    ensures
        r == (NodeVitals {
            accelerator_util: Metric::of(d.gpu_util_pct),
            sm_clock_mhz: Metric::of(d.sm_clock_mhz),
            sm_clock_healthy_mhz: healthy_clock_mhz,
            temperature_c: Metric::of(d.temperature_c),
            power_w: Metric::of(d.power_w),
            memory_used_frac: Metric::of(d.memory_used_frac),
            memory_total_bytes: Metric::of(d.memory_total_bytes),
            disk_free_bytes: Metric::of(disk_free_bytes),
            docker_ok,
            agent_uptime_s: uptime_s,
        }),
{
    NodeVitals {
        accelerator_util: Metric::from_option(d.gpu_util_pct),
        sm_clock_mhz: Metric::from_option(d.sm_clock_mhz),
        sm_clock_healthy_mhz: healthy_clock_mhz,
        temperature_c: Metric::from_option(d.temperature_c),
        power_w: Metric::from_option(d.power_w),
        memory_used_frac: Metric::from_option(d.memory_used_frac),
        memory_total_bytes: Metric::from_option(d.memory_total_bytes),
        disk_free_bytes: Metric::from_option(disk_free_bytes),
        docker_ok,
        agent_uptime_s: uptime_s,
    }
}

/// The label on every container that this agent manages.
pub const LABEL_MANAGED: &'static str = "io.metralectl.managed";

/// The label that names a container's recipe.
pub const LABEL_RECIPE: &'static str = "io.metralectl.recipe";

/// The one way this project asks whether the container runtime is answering:
/// `docker info` exposes the server's version under this name.
pub fn docker_probe_argv() -> (r: Vec<String>)
    ensures
        text::views(r@) == seq!["docker"@, "info"@, "--format"@, "{{.ServerVersion}}"@],
{
    let mut r: Vec<String> = Vec::new();
    r.push(text::copy("docker"));
    r.push(text::copy("info"));
    r.push(text::copy("--format"));
    r.push(text::copy("{{.ServerVersion}}"));
    assert(text::views(r@) =~= seq!["docker"@, "info"@, "--format"@, "{{.ServerVersion}}"@]);
    r
}

/// The arguments that list the recipes of managed containers still running.
/// Filtered by our own label, so that an operator's unrelated containers are
/// neither listed nor confused for ours.
pub open spec fn running_probe() -> Seq<Seq<char>> {
    seq![
        "docker"@,
        "ps"@,
        "--filter"@,
        "label="@ + LABEL_MANAGED@ + "=1"@,
        "--format"@,
        "{{.Label \""@ + LABEL_RECIPE@ + "\"}}"@,
    ]
}

/// The arguments that list the recipes of managed containers still running.
pub fn running_probe_argv() -> (r: Vec<String>)
    ensures
        text::views(r@) == running_probe(),
{
    let mut r: Vec<String> = Vec::new();
    r.push(text::copy("docker"));
    r.push(text::copy("ps"));
    r.push(text::copy("--filter"));
    r.push(text::cat3("label=", LABEL_MANAGED, "=1"));
    r.push(text::copy("--format"));
    r.push(text::cat3("{{.Label \"", LABEL_RECIPE, "\"}}"));
    assert(text::views(r@) =~= running_probe());
    r
}

/// The first line, from `i` on, that is not blank, without the spaces around
/// it.
pub open spec fn first_line(lines: Seq<Seq<char>>, i: int) -> Option<Seq<char>>
    decreases lines.len() - i,
{
    if i < 0 || i >= lines.len() {
        None
    } else if text::trimmed(lines[i]).len() > 0 {
        Some(text::trimmed(lines[i]))
    } else {
        first_line(lines, i + 1)
    }
}

/// Supplies this machine's vitals.
pub trait VitalsSource<F> {
    /// The current sample.
    fn vitals(&self) -> NodeVitals<F>;
}

/// What this machine is currently serving. Read from the container runtime
/// rather than remembered, so that an agent that was restarted still reports
/// the model it left running.
pub trait RunningSource {
    /// The recipe running here, if any.
    fn running(&self) -> Option<String>;
}

/// The answer of the container runtime to [`running_probe_argv`]: whether it
/// answered at all, and what it printed.
#[derive(Debug, Clone, PartialEq, Eq)]
pub struct DockerRunning {
    pub answered: bool,
    pub stdout: String,
}

impl RunningSource for DockerRunning {
    /// The first recipe named. A runtime that does not answer reports
    /// nothing, and a blank line is no recipe.
    fn running(&self) -> (r: Option<String>)
        ensures
            crate::bench::job::opt_view(r) == (if self.answered {
                first_line(text::lines_of(self.stdout@), 0)
            } else {
                None
            }),
    {
        if !self.answered {
            return None;
        }
        let lines = text::lines(&self.stdout);
        let mut i: usize = 0;
        while i < lines.len()
            invariant
                i <= lines.len(),
                text::views(lines@) == text::lines_of(self.stdout@),
                self.answered,
                first_line(text::lines_of(self.stdout@), 0) == first_line(
                    text::lines_of(self.stdout@),
                    i as int,
                ),
            decreases lines.len() - i,
        {
            assert(text::views(lines@)[i as int] == lines@[i as int]@);
            let t = text::trim(&lines[i]);
            let v = text::to_chars(&t);
            if v.len() > 0 {
                return Some(t);
            }
            i += 1;
        }
        assert(text::views(lines@).len() == lines@.len());
        None
    }
}

// ---------------------------------------------------------------------------
// Laws
// ---------------------------------------------------------------------------

/// Law: the first line that says anything is what is read, without the spaces
/// around it; where none says anything, nothing is.
pub proof fn law_the_first_line_said_is_read(lines: Seq<Seq<char>>, i: int)
    ensures
        0 <= i < lines.len() && text::trimmed(lines[i]).len() > 0 && (forall|k: int|
            0 <= k < i ==> text::trimmed(#[trigger] lines[k]).len() == 0) ==> first_line(lines, 0)
            == Some(text::trimmed(lines[i])),
        (forall|k: int| 0 <= k < lines.len() ==> text::trimmed(#[trigger] lines[k]).len() == 0)
            ==> first_line(lines, 0) is None,
{
    if 0 <= i < lines.len() && text::trimmed(lines[i]).len() > 0 && (forall|k: int|
        0 <= k < i ==> text::trimmed(#[trigger] lines[k]).len() == 0) {
        lemma_line_said(lines, 0, i);
    }
    if forall|k: int| 0 <= k < lines.len() ==> text::trimmed(#[trigger] lines[k]).len() == 0 {
        lemma_no_line_said(lines, 0);
    }
}

proof fn lemma_line_said(lines: Seq<Seq<char>>, from: int, i: int)
    requires
        0 <= from <= i < lines.len(),
        text::trimmed(lines[i]).len() > 0,
        forall|k: int| 0 <= k < i ==> text::trimmed(#[trigger] lines[k]).len() == 0,
    ensures
        first_line(lines, from) == Some(text::trimmed(lines[i])),
    decreases i - from,
{
    if from < i {
        lemma_line_said(lines, from + 1, i);
    }
}

proof fn lemma_no_line_said(lines: Seq<Seq<char>>, from: int)
    requires
        0 <= from <= lines.len(),
        forall|k: int| 0 <= k < lines.len() ==> text::trimmed(#[trigger] lines[k]).len() == 0,
    ensures
        first_line(lines, from) is None,
    decreases lines.len() - from,
{
    if from < lines.len() {
        lemma_no_line_said(lines, from + 1);
    }
}

/// Law: the containers asked after are ours: those that carry the label that
/// every launch gets, told by the label that names the recipe.
pub proof fn law_our_own_containers_are_asked_after()
    ensures
        running_probe().len() == 6,
        running_probe()[0] == "docker"@,
        running_probe()[1] == "ps"@,
        running_probe()[2] == "--filter"@,
        running_probe()[3] == "label="@ + "io.metralectl.managed"@ + "=1"@,
        running_probe()[4] == "--format"@,
        running_probe()[5] == "{{.Label \""@ + "io.metralectl.recipe"@ + "\"}}"@,
{
}

} // verus!
