//! Launching through the container runtime: what it is told, and what its
//! answers mean.
//!
//! Nothing here runs a command. The arguments of each are given, and what came
//! of it is taken.
use crate::bench::config::is_alnum;
use crate::error::AgentError;
use crate::fleet::vitals::{LABEL_MANAGED, LABEL_RECIPE};
use crate::launcher::{Preview, RunningLaunch, Started};
use crate::text;
use vstd::prelude::*;

verus! {

/// What a command came to.
#[derive(Debug, Clone, PartialEq, Eq)]
pub struct Output {
    pub status: i32,
    pub stdout: String,
    pub stderr: String,
}

/// What a recipe translates to.
#[derive(Debug, Clone, PartialEq, Eq)]
pub struct LaunchPlan {
    /// The container's name.
    pub name: String,
    /// What is run inside it.
    pub command: Vec<String>,
    /// Whether the runtime removes the container when it exits.
    pub auto_remove: bool,
    /// Settings that this build does not understand.
    pub unmapped: Vec<String>,
}

/// How much of a model is in the cache.
#[derive(Debug, Clone, Copy, PartialEq, Eq, Structural)]
pub enum CacheState {
    /// Its weights are there.
    Weights,
    /// Nothing of it is there.
    Absent,
    /// Something of it is there, and no weights.
    MetadataOnly,
}

/// The characters of a recipe's name: letters, digits and `-_.`, and at least
/// one.
pub open spec fn recipe_name(s: Seq<char>) -> bool {
    s.len() > 0 && forall|i: int|
        0 <= i < s.len() ==> is_alnum(#[trigger] s[i]) || s[i] == '-' || s[i] == '_' || s[i] == '.'
}

/// Whether a text is a recipe's name.
pub fn is_recipe_name(s: &str) -> (r: bool)
    ensures
        r == recipe_name(s@),
{
    let v = text::to_chars(s);
    if v.len() == 0 {
        return false;
    }
    let mut i: usize = 0;
    while i < v.len()
        invariant
            i <= v.len(),
            v@ == s@,
            v.len() > 0,
            forall|k: int|
                0 <= k < i ==> is_alnum(#[trigger] s@[k]) || s@[k] == '-' || s@[k] == '_' || s@[k]
                    == '.',
        decreases v.len() - i,
    {
        let c = v[i];
        if !(crate::bench::config::alnum(c) || c == '-' || c == '_' || c == '.') {
            return false;
        }
        i += 1;
    }
    true
}

/// The plan of a launch: what the recipe translated to, except that the
/// container stays when it exits. The agent removes it by name before it
/// starts one, and a rank that dies must not take its logs with it.
pub fn plan(recipe: &str, translated: Result<LaunchPlan, String>) -> (r: Result<
    LaunchPlan,
    AgentError,
>)
    ensures
        match translated {
            Ok(p) => r == Ok::<LaunchPlan, AgentError>(LaunchPlan { auto_remove: false, ..p }),
            Err(why) => {
                &&& r matches Err(AgentError::NotLaunchable { recipe: name, reason })
                &&& name@ == (if recipe_name(recipe@) {
                    recipe@
                } else {
                    "unknown"@
                })
                &&& reason == why
            },
        },
{
    match translated {
        Ok(p) => Ok(LaunchPlan { auto_remove: false, ..p }),
        Err(reason) => {
            let name = if is_recipe_name(recipe) {
                text::copy(recipe)
            } else {
                text::copy("unknown")
            };
            Err(AgentError::NotLaunchable { recipe: name, reason })
        },
    }
}

/// What a preview shows: the command as rendered, and what was not
/// understood.
pub fn preview(plan: LaunchPlan, rendered: String) -> (r: Preview)
    ensures
        r.command == rendered,
        r.unapplied == plan.unmapped,
{
    Preview { command: rendered, unapplied: plan.unmapped }
}

/// The launch brings its own weights, so the cache is never consulted.
pub open spec fn own_weights(command: Seq<String>) -> bool {
    exists|i: int| 0 <= i < command.len() && (#[trigger] command[i])@ == "--model-from-path"@
}

fn brings_weights(command: &Vec<String>) -> (r: bool)
    ensures
        r == own_weights(command@),
{
    let mut i: usize = 0;
    while i < command.len()
        invariant
            i <= command@.len(),
            forall|k: int| 0 <= k < i ==> (#[trigger] command@[k])@ != "--model-from-path"@,
        decreases command@.len() - i,
    {
        if text::same(&command[i], "--model-from-path") {
            return true;
        }
        i += 1;
    }
    false
}

/// What is missing of a model. An interrupted download is told apart from
/// none: saying that a model is not there, when its directory can be seen,
/// reads as a broken tool.
pub open spec fn missing(model: Seq<char>, cache: Seq<char>, state: CacheState) -> Option<
    Seq<char>,
> {
    match state {
        CacheState::Weights => None,
        CacheState::Absent => Some(
            "the model `"@ + model + "` is not in this machine's HuggingFace cache ("@ + cache
                + "). The launch runs offline, so it cannot download it — fetch it first with `hf download "@
                + model + "`."@,
        ),
        CacheState::MetadataOnly => Some(
            "the model `"@ + model + "` has a cache directory in "@ + cache
                + " but no weight files — what an interrupted or metadata-only download leaves behind. Complete it with `hf download "@
                + model + "`."@,
        ),
    }
}

/// Why a launch is not tried, if it is not.
pub open spec fn withheld(
    command: Seq<String>,
    model: Seq<char>,
    cache: Seq<char>,
    state: Option<CacheState>,
) -> Option<Seq<char>> {
    if own_weights(command) || state is None {
        None
    } else {
        missing(model, cache, state.unwrap())
    }
}

/// What keeps a launch from being tried. `state` is how much of the model is
/// in the cache, where the model is one that the cache could hold.
pub fn refuse_model(
    plan: &LaunchPlan,
    model: &str,
    cache: &str,
    state: Option<CacheState>,
) -> (r: Option<AgentError>)
    ensures
        match r {
            Some(AgentError::LaunchFailed { detail }) => withheld(
                plan.command@,
                model@,
                cache@,
                state,
            ) == Some(detail@),
            Some(_) => false,
            None => withheld(plan.command@, model@, cache@, state) is None,
        },
{
    if brings_weights(&plan.command) {
        return None;
    }
    match state {
        None => None,
        Some(CacheState::Weights) => None,
        Some(CacheState::Absent) => {
            let mut s = text::cat3(
                "the model `",
                model,
                "` is not in this machine's HuggingFace cache (",
            );
            s.append(cache);
            s.append(
                "). The launch runs offline, so it cannot download it — fetch it first with `hf download ",
            );
            s.append(model);
            s.append("`.");
            Some(AgentError::LaunchFailed { detail: s })
        },
        Some(CacheState::MetadataOnly) => {
            let mut s = text::cat3("the model `", model, "` has a cache directory in ");
            s.append(cache);
            s.append(
                " but no weight files — what an interrupted or metadata-only download leaves behind. Complete it with `hf download ",
            );
            s.append(model);
            s.append("`.");
            Some(AgentError::LaunchFailed { detail: s })
        },
    }
}

/// The arguments that clear a previous container of the same name. That there
/// is none is the ordinary case.
pub fn clear_argv(name: &str) -> (r: Vec<String>)
    ensures
        text::views(r@) == seq!["docker"@, "rm"@, "-f"@, name@],
{
    let mut r: Vec<String> = Vec::new();
    r.push(text::copy("docker"));
    r.push(text::copy("rm"));
    r.push(text::copy("-f"));
    r.push(text::copy(name));
    assert(text::views(r@) =~= seq!["docker"@, "rm"@, "-f"@, name@]);
    r
}

/// The word behind the first `--port`, from `i` on, that has one.
pub open spec fn port_in(command: Seq<String>, i: int) -> Option<Seq<char>>
    decreases command.len() - i,
{
    if i < 0 || i + 1 >= command.len() {
        None
    } else if command[i]@ == "--port"@ {
        Some(command[i + 1]@)
    } else {
        port_in(command, i + 1)
    }
}

/// Where a command serves. Port zero serves nothing.
pub open spec fn endpoint_of(command: Seq<String>) -> Option<Seq<char>> {
    match port_in(command, 0) {
        Some(p) => if p == "0"@ {
            None
        } else {
            Some("http://localhost:"@ + p + "/v1"@)
        },
        None => None,
    }
}

fn find_endpoint(command: &Vec<String>) -> (r: Option<String>)
    ensures
        crate::bench::job::opt_view(r) == endpoint_of(command@),
{
    let mut i: usize = 0;
    while i < command.len() && command.len() - i > 1
        invariant
            i <= command@.len(),
            port_in(command@, 0) == port_in(command@, i as int),
        decreases command@.len() - i,
    {
        if text::same(&command[i], "--port") {
            if text::same(&command[i + 1], "0") {
                return None;
            }
            return Some(text::cat3("http://localhost:", &command[i + 1], "/v1"));
        }
        i += 1;
    }
    None
}

/// What starting a container comes to.
pub open spec fn launch_ends(
    plan: LaunchPlan,
    out: Result<Output, String>,
    r: Result<Started, AgentError>,
) -> bool {
    match out {
        Err(e) => r matches Err(AgentError::LaunchFailed { detail }) && detail == e,
        Ok(o) => if o.status == 0 {
            r matches Ok(s) && s.container == plan.name && crate::bench::job::opt_view(s.endpoint)
                == endpoint_of(plan.command@)
        } else {
            r matches Err(AgentError::LaunchFailed { detail }) && detail@ == "docker run exited "@
                + text::dec_int(o.status as int) + ": "@ + text::trimmed(o.stderr@)
        },
    }
}

/// What starting a container came to.
pub fn launched(plan: LaunchPlan, out: Result<Output, String>) -> (r: Result<Started, AgentError>)
    ensures
        launch_ends(plan, out, r),
{
    match out {
        Err(detail) => Err(AgentError::LaunchFailed { detail }),
        Ok(o) => if o.status == 0 {
            let endpoint = find_endpoint(&plan.command);
            Ok(Started { container: plan.name, endpoint })
        } else {
            let code = text::decimal_i64(o.status as i64);
            let mut detail = text::cat3("docker run exited ", &code, ": ");
            let t = text::trim(&o.stderr);
            detail.append(&t);
            Err(AgentError::LaunchFailed { detail })
        },
    }
}

/// The arguments that list a recipe's containers: by label, so that the ranks
/// of a cluster are found as well as a launch of its own.
pub fn list_argv(recipe: &str) -> (r: Vec<String>)
    ensures
        text::views(r@) == seq![
            "docker"@,
            "ps"@,
            "-q"@,
            "--filter"@,
            "label="@ + LABEL_RECIPE@ + "="@ + recipe@,
        ],
{
    let mut r: Vec<String> = Vec::new();
    r.push(text::copy("docker"));
    r.push(text::copy("ps"));
    r.push(text::copy("-q"));
    r.push(text::copy("--filter"));
    let mut f = text::cat3("label=", LABEL_RECIPE, "=");
    f.append(recipe);
    r.push(f);
    assert(text::views(r@) =~= seq![
        "docker"@,
        "ps"@,
        "-q"@,
        "--filter"@,
        "label="@ + LABEL_RECIPE@ + "="@ + recipe@,
    ]);
    r
}

/// The lines, among the first `n`, that are not blank, without the spaces
/// around them.
pub open spec fn ids_in(lines: Seq<Seq<char>>, n: int) -> Seq<Seq<char>>
    decreases n,
{
    if n <= 0 {
        Seq::empty()
    } else if text::trimmed(lines[n - 1]).len() > 0 {
        ids_in(lines, n - 1).push(text::trimmed(lines[n - 1]))
    } else {
        ids_in(lines, n - 1)
    }
}

/// The containers that a listing names.
pub open spec fn ids_of(stdout: Seq<char>) -> Seq<Seq<char>> {
    ids_in(text::lines_of(stdout), text::lines_of(stdout).len() as int)
}

/// The arguments that stop what a listing named: every container of it, and
/// where it named none, the one that the recipe's own launch is called. A
/// container from before there were labels can still be stopped, and by its
/// exact name no other is caught.
pub open spec fn stopping(recipe: Seq<char>, ids: Seq<Seq<char>>) -> Seq<Seq<char>> {
    if ids.len() == 0 {
        seq!["docker"@, "stop"@, "metrale-"@ + recipe]
    } else {
        seq!["docker"@, "stop"@] + ids
    }
}

/// What a listing of a recipe's containers comes to: the arguments that stop
/// them.
pub fn listed(recipe: &str, out: Result<Output, String>) -> (r: Result<Vec<String>, AgentError>)
    ensures
        match out {
            Err(e) => r matches Err(AgentError::LaunchFailed { detail }) && detail == e,
            Ok(o) => if o.status == 0 {
                r matches Ok(argv) && text::views(argv@) == stopping(recipe@, ids_of(o.stdout@))
            } else {
                r matches Err(AgentError::LaunchFailed { detail }) && detail@ == text::trimmed(
                    o.stderr@,
                )
            },
        },
{
    let o = match out {
        Err(detail) => return Err(AgentError::LaunchFailed { detail }),
        Ok(o) => o,
    };
    if o.status != 0 {
        return Err(AgentError::LaunchFailed { detail: text::trim(&o.stderr) });
    }
    let lines = text::lines(&o.stdout);
    let ghost all = text::lines_of(o.stdout@);
    let mut argv: Vec<String> = Vec::new();
    argv.push(text::copy("docker"));
    argv.push(text::copy("stop"));
    assert(text::views(argv@) =~= seq!["docker"@, "stop"@] + ids_in(all, 0));
    let mut i: usize = 0;
    while i < lines.len()
        invariant
            i <= lines@.len(),
            all == text::lines_of(o.stdout@),
            text::views(lines@) == all,
            text::views(argv@) == seq!["docker"@, "stop"@] + ids_in(all, i as int),
        decreases lines@.len() - i,
    {
        assert(text::views(lines@)[i as int] == lines@[i as int]@);
        let t = text::trim(&lines[i]);
        let v = text::to_chars(&t);
        if v.len() > 0 {
            let ghost was = argv@;
            argv.push(t);
            assert(text::views(argv@) =~= text::views(was).push(t@));
            assert(text::views(argv@) =~= seq!["docker"@, "stop"@] + ids_in(all, i + 1));
        }
        i += 1;
    }
    assert(text::views(lines@).len() == lines@.len());
    assert(text::views(argv@).len() == argv@.len());
    if argv.len() == 2 {
        argv.push(text::cat2("metrale-", recipe));
        assert(text::views(argv@) =~= seq!["docker"@, "stop"@, "metrale-"@ + recipe@]);
    }
    Ok(argv)
}

/// What stopping came to.
pub fn stopped(out: Result<Output, String>) -> (r: Result<(), AgentError>)
    ensures
        match out {
            Err(e) => r matches Err(AgentError::LaunchFailed { detail }) && detail == e,
            Ok(o) => if o.status == 0 {
                r is Ok
            } else {
                r matches Err(AgentError::LaunchFailed { detail }) && detail@ == text::trimmed(
                    o.stderr@,
                )
            },
        },
{
    match out {
        Err(detail) => Err(AgentError::LaunchFailed { detail }),
        Ok(o) => if o.status == 0 {
            Ok(())
        } else {
            Err(AgentError::LaunchFailed { detail: text::trim(&o.stderr) })
        },
    }
}

/// The arguments that list what this agent runs.
pub fn running_argv() -> (r: Vec<String>)
    ensures
        text::views(r@) == seq![
            "docker"@,
            "ps"@,
            "--filter"@,
            "label="@ + LABEL_MANAGED@ + "=1"@,
            "--format"@,
            "{{.Names}}\t{{.Status}}"@,
        ],
{
    let mut r: Vec<String> = Vec::new();
    r.push(text::copy("docker"));
    r.push(text::copy("ps"));
    r.push(text::copy("--filter"));
    r.push(text::cat3("label=", LABEL_MANAGED, "=1"));
    r.push(text::copy("--format"));
    r.push(text::copy("{{.Names}}\t{{.Status}}"));
    assert(text::views(r@) =~= seq![
        "docker"@,
        "ps"@,
        "--filter"@,
        "label="@ + LABEL_MANAGED@ + "=1"@,
        "--format"@,
        "{{.Names}}\t{{.Status}}"@,
    ]);
    r
}

/// The recipe that a container's name tells. A container that is not named
/// like ours has none.
pub open spec fn recipe_of(container: Seq<char>) -> Option<Seq<char>> {
    if text::begins(container, "metrale-"@) {
        let rest = container.subrange("metrale-"@.len() as int, container.len() as int);
        if recipe_name(rest) {
            Some(rest)
        } else {
            None
        }
    } else {
        None
    }
}

/// One running launch, as a value.
#[verifier::ext_equal]
pub struct LaunchLine {
    pub container: Seq<char>,
    pub recipe: Option<Seq<char>>,
    pub status: Seq<char>,
}

impl View for RunningLaunch {
    type V = LaunchLine;

    open spec fn view(&self) -> LaunchLine {
        LaunchLine {
            container: self.container@,
            recipe: crate::bench::job::opt_view(self.recipe),
            status: self.status@,
        }
    }
}

/// The values of running launches.
pub open spec fn launch_views(v: Seq<RunningLaunch>) -> Seq<LaunchLine> {
    v.map_values(|l: RunningLaunch| l@)
}

/// What a line of the listing says.
pub open spec fn launch_line(line: Seq<char>) -> LaunchLine {
    let parts = text::split(line, '\t');
    let container = if parts.len() > 0 {
        parts[0]
    } else {
        Seq::empty()
    };
    LaunchLine {
        container,
        recipe: recipe_of(container),
        status: if parts.len() > 1 {
            parts[1]
        } else {
            Seq::empty()
        },
    }
}

/// What the first `n` lines say. A blank line says nothing.
pub open spec fn launch_lines(lines: Seq<Seq<char>>, n: int) -> Seq<LaunchLine>
    decreases n,
{
    if n <= 0 {
        Seq::empty()
    } else if text::trimmed(lines[n - 1]).len() > 0 {
        launch_lines(lines, n - 1).push(launch_line(lines[n - 1]))
    } else {
        launch_lines(lines, n - 1)
    }
}

fn read_launch(line: &str) -> (r: RunningLaunch)
    ensures
        r@ == launch_line(line@),
{
    let parts = text::split_on(line, '\t');
    assert(text::views(parts@).len() == parts@.len());
    let container = if parts.len() > 0 {
        assert(text::views(parts@)[0] == parts@[0]@);
        parts[0].clone()
    } else {
        String::new()
    };
    let status = if parts.len() > 1 {
        assert(text::views(parts@)[1] == parts@[1]@);
        parts[1].clone()
    } else {
        String::new()
    };
    let recipe = match text::strip_prefix(&container, "metrale-") {
        Some(rest) => if is_recipe_name(&rest) {
            Some(rest)
        } else {
            None
        },
        None => None,
    };
    let r = RunningLaunch { container, recipe, status };
    assert(r@ =~= launch_line(line@));
    r
}

/// What is running, as the runtime lists it. Everything it lists is ours by
/// label; a container that is not named like ours is listed without a recipe.
pub fn running(out: Result<Output, String>) -> (r: Result<Vec<RunningLaunch>, AgentError>)
    ensures
        match out {
            Err(e) => r matches Err(AgentError::DockerUnavailable { detail }) && detail == e,
            Ok(o) => if o.status == 0 {
                r matches Ok(v) && launch_views(v@) == launch_lines(
                    text::lines_of(o.stdout@),
                    text::lines_of(o.stdout@).len() as int,
                )
            } else {
                r matches Err(AgentError::DockerUnavailable { detail }) && detail@
                    == text::trimmed(o.stderr@)
            },
        },
{
    let o = match out {
        Err(detail) => return Err(AgentError::DockerUnavailable { detail }),
        Ok(o) => o,
    };
    if o.status != 0 {
        return Err(AgentError::DockerUnavailable { detail: text::trim(&o.stderr) });
    }
    let lines = text::lines(&o.stdout);
    let ghost all = text::lines_of(o.stdout@);
    let mut v: Vec<RunningLaunch> = Vec::new();
    assert(launch_views(v@) =~= launch_lines(all, 0));
    let mut i: usize = 0;
    while i < lines.len()
        invariant
            i <= lines@.len(),
            all == text::lines_of(o.stdout@),
            text::views(lines@) == all,
            launch_views(v@) == launch_lines(all, i as int),
        decreases lines@.len() - i,
    {
        assert(text::views(lines@)[i as int] == lines@[i as int]@);
        let t = text::trim(&lines[i]);
        let c = text::to_chars(&t);
        if c.len() > 0 {
            let ghost was = v@;
            let l = read_launch(&lines[i]);
            v.push(l);
            assert(launch_views(v@) =~= launch_views(was).push(l@));
        }
        i += 1;
    }
    assert(text::views(lines@).len() == lines@.len());
    Ok(v)
}

/// Law: a launch whose model is not in the cache is refused before anything
/// is run, unless it brings its own weights. Only weights in the cache,
/// weights of its own, or a model that the cache could not hold let one
/// through.
pub proof fn law_a_missing_model_is_refused(
    command: Seq<String>,
    model: Seq<char>,
    cache: Seq<char>,
    state: Option<CacheState>,
)
    ensures
        withheld(command, model, cache, state) is None <==> own_weights(command) || state is None
            || state == Some(CacheState::Weights),
{
}

/// Law: stopping never reaches further than the recipe. What is stopped is
/// what the listing by label named, and where it named nothing, one container
/// by its exact name.
pub proof fn law_a_stop_reaches_its_own_containers(recipe: Seq<char>, ids: Seq<Seq<char>>, i: int)
    requires
        2 <= i < stopping(recipe, ids).len(),
    ensures
        stopping(recipe, ids).len() >= 3,
        ids.len() > 0 ==> ids.contains(stopping(recipe, ids)[i]),
        ids.len() == 0 ==> stopping(recipe, ids)[i] == "metrale-"@ + recipe,
{
    if ids.len() > 0 {
        assert(stopping(recipe, ids)[i] == ids[i - 2]);
    }
}

/// Law: a launch says where it serves. What follows the first `--port` of the
/// command is the port, wherever in the command it stands; port zero serves
/// nowhere that could be named.
pub proof fn law_a_launch_says_where_it_serves(
    plan: LaunchPlan,
    out: Output,
    r: Result<Started, AgentError>,
    i: int,
)
    requires
        launch_ends(plan, Ok(out), r),
        out.status == 0,
        0 <= i,
        i + 1 < plan.command@.len(),
        plan.command@[i]@ == "--port"@,
        forall|j: int| 0 <= j < i ==> (#[trigger] plan.command@[j])@ != "--port"@,
    ensures
        r matches Ok(s) && s.container == plan.name && (if plan.command@[i + 1]@ == "0"@ {
            s.endpoint is None
        } else {
            s.endpoint matches Some(e) && e@ == "http://localhost:"@ + plan.command@[i + 1]@ + "/v1"@
        }),
{
    lemma_port_in(plan.command@, 0, i);
}

/// Law: a launch whose command names no port serves nowhere that could be
/// named, and only one that ended well is a launch.
pub proof fn law_without_a_port_there_is_no_endpoint(
    plan: LaunchPlan,
    out: Result<Output, String>,
    r: Result<Started, AgentError>,
)
    requires
        launch_ends(plan, out, r),
    ensures
        r is Ok <==> (out matches Ok(o) && o.status == 0),
        (forall|j: int|
            0 <= j < plan.command@.len() - 1 ==> (#[trigger] plan.command@[j])@ != "--port"@) ==> (
        r matches Ok(s) ==> s.endpoint is None),
{
    if forall|j: int|
        0 <= j < plan.command@.len() - 1 ==> (#[trigger] plan.command@[j])@ != "--port"@ {
        lemma_no_port(plan.command@, 0);
    }
}

proof fn lemma_port_in(command: Seq<String>, from: int, i: int)
    requires
        0 <= from <= i,
        i + 1 < command.len(),
        command[i]@ == "--port"@,
        forall|j: int| from <= j < i ==> (#[trigger] command[j])@ != "--port"@,
    ensures
        port_in(command, from) == Some(command[i + 1]@),
    decreases i - from,
{
    if from < i {
        assert(command[from]@ != "--port"@);
        lemma_port_in(command, from + 1, i);
    }
}

proof fn lemma_no_port(command: Seq<String>, from: int)
    requires
        0 <= from,
        forall|j: int| from <= j < command.len() - 1 ==> (#[trigger] command[j])@ != "--port"@,
    ensures
        port_in(command, from) is None,
    decreases command.len() - from,
{
    if from + 1 < command.len() {
        lemma_no_port(command, from + 1);
    }
}

/// A line that says anything, without the space around it.
pub open spec fn said() -> spec_fn(Seq<char>) -> Option<Seq<char>> {
    |line: Seq<char>|
        if text::trimmed(line).len() > 0 {
            Some(text::trimmed(line))
        } else {
            None
        }
}

/// A line that says anything.
pub open spec fn not_blank() -> spec_fn(Seq<char>) -> bool {
    |line: Seq<char>| text::trimmed(line).len() > 0
}

/// Law: stopping reaches every container of the listing, each once and in its
/// order, and only where the listing names none the one of the recipe's name.
pub proof fn law_a_stop_reaches_all_that_is_listed(recipe: Seq<char>, stdout: Seq<char>)
    ensures
        ids_of(stdout) == text::lines_of(stdout).filter_map(said()),
        ({
            let ids = text::lines_of(stdout).filter_map(said());
            let argv = stopping(recipe, ids_of(stdout));
            &&& argv[0] == "docker"@
            &&& argv[1] == "stop"@
            &&& ids.len() > 0 ==> argv.subrange(2, argv.len() as int) == ids
            &&& ids.len() == 0 ==> argv.subrange(2, argv.len() as int) == seq![
                "metrale-"@ + recipe,
            ]
        }),
{
    let lines = text::lines_of(stdout);
    assert(lines.subrange(0, lines.len() as int) =~= lines);
    lemma_ids(lines, lines.len() as int);
    let ids = ids_of(stdout);
    let argv = stopping(recipe, ids);
    if ids.len() > 0 {
        assert(argv.subrange(2, argv.len() as int) =~= ids);
    } else {
        assert(argv.subrange(2, argv.len() as int) =~= seq!["metrale-"@ + recipe]);
    }
}

proof fn lemma_ids(lines: Seq<Seq<char>>, n: int)
    requires
        0 <= n <= lines.len(),
    ensures
        ids_in(lines, n) == lines.subrange(0, n).filter_map(said()),
    decreases n,
{
    let head = lines.subrange(0, n);
    if n > 0 {
        lemma_ids(lines, n - 1);
        assert(head.drop_last() =~= lines.subrange(0, n - 1));
        assert(head.last() == lines[n - 1]);
        assert(ids_in(lines, n) =~= head.filter_map(said()));
    } else {
        assert(ids_in(lines, n) =~= head.filter_map(said()));
    }
}

/// Law: every line of the runtime's listing that says anything is a launch: its
/// container, and behind a tab its status. It is a recipe's where it is named
/// like ours.
pub proof fn law_every_launch_is_listed(
    lines: Seq<Seq<char>>,
    container: Seq<char>,
    status: Seq<char>,
    recipe: Seq<char>,
)
    requires
        !container.contains('\t'),
        !status.contains('\t'),
    ensures
        launch_lines(lines, lines.len() as int) == lines.filter(not_blank()).map_values(
            |l: Seq<char>| launch_line(l),
        ),
        launch_line(container + "\t"@ + status).container == container,
        launch_line(container + "\t"@ + status).status == status,
        launch_line(container).container == container,
        launch_line(container).status.len() == 0,
        recipe_of("metrale-"@ + recipe) == (if recipe_name(recipe) {
            Some(recipe)
        } else {
            None
        }),
        !text::begins(container, "metrale-"@) ==> recipe_of(container) is None,
        launch_line(container).recipe == recipe_of(container),
{
    reveal_strlit("\t");
    assert(lines.subrange(0, lines.len() as int) =~= lines);
    lemma_launch_lines(lines, lines.len() as int);
    lemma_two_pieces(container, status, '\t');
    assert(container + "\t"@ + status =~= container + seq!['\t'] + status);
    text::law_beginnings_and_ends("metrale-"@ + recipe, "metrale-"@, recipe);
    let whole = "metrale-"@ + recipe;
    assert(whole.subrange("metrale-"@.len() as int, whole.len() as int) =~= recipe);
}

proof fn lemma_two_pieces(a: Seq<char>, b: Seq<char>, c: char)
    requires
        !a.contains(c),
        !b.contains(c),
    ensures
        text::split(a + seq![c] + b, c) == seq![a, b],
        text::split(a, c) == seq![a],
{
    let s = a + seq![c] + b;
    text::lemma_find(s, c, 0);
    let i = text::find(s, c, 0);
    assert(s[a.len() as int] == c);
    assert(i == a.len()) by {
        if i < a.len() {
            assert(a[i] == c);
        }
    }
    assert(s.subrange(0, i) =~= a);
    text::lemma_find(s, c, i + 1);
    let j = text::find(s, c, i + 1);
    if j < s.len() {
        assert(b[j - i - 1] == c);
    }
    assert(s.subrange(i + 1, s.len() as int) =~= b);
    assert(text::split_from(s, c, i + 1) =~= seq![b]);
    assert(text::split(s, c) =~= seq![a, b]);
    text::lemma_find(a, c, 0);
    let k = text::find(a, c, 0);
    if k < a.len() {
        assert(a[k] == c);
    }
    assert(a.subrange(0, a.len() as int) =~= a);
}

proof fn lemma_launch_lines(lines: Seq<Seq<char>>, n: int)
    requires
        0 <= n <= lines.len(),
    ensures
        launch_lines(lines, n) == lines.subrange(0, n).filter(not_blank()).map_values(
            |l: Seq<char>| launch_line(l),
        ),
    decreases n,
{
    reveal(Seq::filter);
    let head = lines.subrange(0, n);
    if n > 0 {
        lemma_launch_lines(lines, n - 1);
        assert(head.drop_last() =~= lines.subrange(0, n - 1));
        assert(head.last() == lines[n - 1]);
    }
    assert(launch_lines(lines, n) =~= head.filter(not_blank()).map_values(
        |l: Seq<char>| launch_line(l),
    ));
}

/// Law: a model that is missing is named, with the directory that was looked
/// in and what would fetch it.
pub proof fn law_a_missing_model_is_named(
    command: Seq<String>,
    model: Seq<char>,
    cache: Seq<char>,
    state: CacheState,
)
    requires
        forall|i: int| 0 <= i < command.len() ==> (#[trigger] command[i])@ != "--model-from-path"@,
    ensures
        match withheld(command, model, cache, Some(state)) {
            None => state is Weights,
            Some(why) => {
                &&& !(state is Weights)
                &&& text::begins(why, "the model `"@ + model + "` "@)
                &&& text::ends(why, "`hf download "@ + model + "`."@)
            },
        },
{
    reveal_strlit("the model `");
    reveal_strlit("` is not in this machine's HuggingFace cache (");
    reveal_strlit("` has a cache directory in ");
    reveal_strlit("` ");
    reveal_strlit("`hf download ");
    reveal_strlit("`.");
    reveal_strlit(
        "). The launch runs offline, so it cannot download it — fetch it first with `hf download ",
    );
    reveal_strlit(
        " but no weight files — what an interrupted or metadata-only download leaves behind. Complete it with `hf download ",
    );
    if withheld(command, model, cache, Some(state)) is Some {
        let why = withheld(command, model, cache, Some(state)).unwrap();
        let p = "the model `"@ + model + "` "@;
        let q = "`hf download "@ + model + "`."@;
        assert(why.subrange(0, p.len() as int) =~= p);
        assert(why.subrange(why.len() - q.len(), why.len() as int) =~= q);
    }
}

/// Law: a launch that fails says why: what could not be run, or with which
/// status it ended and what it said, without the spaces around it.
pub proof fn law_a_failed_launch_says_why(
    plan: LaunchPlan,
    out: Result<Output, String>,
    r: Result<Started, AgentError>,
)
    requires
        launch_ends(plan, out, r),
    ensures
        r is Ok <==> (out matches Ok(o) && o.status == 0),
        r matches Ok(s) ==> s.container == plan.name,
        out matches Err(e) ==> (r matches Err(AgentError::LaunchFailed { detail }) && detail == e),
        out matches Ok(o) ==> o.status != 0 ==> (r matches Err(AgentError::LaunchFailed { detail })
            && detail@ == "docker run exited "@ + text::dec_int(o.status as int) + ": "@
            + text::trimmed(o.stderr@)),
{
}

/// Law: a recipe's name is letters, digits, hyphens, underscores and points,
/// and at least one of them.
pub proof fn law_a_recipe_name_is_plain(s: Seq<char>)
    ensures
        recipe_name(s) <==> s.len() > 0 && forall|i: int|
            0 <= i < s.len() ==> ('0' <= #[trigger] s[i] && s[i] <= '9') || ('a' <= s[i] && s[i]
                <= 'z') || ('A' <= s[i] && s[i] <= 'Z') || s[i] == '-' || s[i] == '_' || s[i]
                == '.',
{
    assert forall|i: int| 0 <= i < s.len() implies is_alnum(#[trigger] s[i]) == (('0' <= s[i]
        && s[i] <= '9') || ('a' <= s[i] && s[i] <= 'z') || ('A' <= s[i] && s[i] <= 'Z')) by {
    }
}

} // verus!
