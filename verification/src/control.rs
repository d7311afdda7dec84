//! The one core behind the control operations of a single machine.
//!
//! The local browser and a granted peer go through the same checks: a second,
//! less-checked path is how a relayed launch would skip one. Nothing here
//! launches or samples; what may be done is decided, and what came of it is
//! put into the answer.
use crate::cluster::SettingValue;
use crate::error::{AgentError, SettingError};
use crate::launcher::docker::{is_recipe_name, recipe_name};
use crate::launcher::{Preview, RunningLaunch, Started};
use crate::node::NodeId;
use crate::text;
use vstd::prelude::*;

verus! {

/// The most lines of a log that are handed out at once.
pub const MAX_TAIL_LINES: u32 = 1_000;

/// How many lines of a log are handed out. The machine that has the log caps
/// the count, whoever asks.
pub fn clamp_lines(lines: u32) -> (r: u32)
    ensures
        r == (if lines < MAX_TAIL_LINES {
            lines
        } else {
            MAX_TAIL_LINES
        }),
        r <= 1_000,
        r <= lines,
        r == lines || r == 1_000,
{
    if lines < MAX_TAIL_LINES {
        lines
    } else {
        MAX_TAIL_LINES
    }
}

/// The tail of a launch's log.
#[derive(Debug, Clone, PartialEq, Eq)]
pub struct LogTail {
    pub container: String,
    pub lines: Vec<String>,
    pub running: bool,
}

/// A recipe, as clients are told of it.
#[derive(Debug)]
pub struct RecipeInfo {
    pub id: String,
    pub model: String,
    pub nodes: u32,
    pub runnable: bool,
    pub reason: Option<String>,
    pub defaults: Vec<(String, SettingValue)>,
}

/// A recipe that this machine has.
#[derive(Debug)]
pub struct RecipeFacts {
    pub model: String,
    pub nodes: u32,
    /// Whether it can be launched, and why not.
    pub launchable: Result<(), String>,
    pub defaults: Vec<(String, SettingValue)>,
}

/// An entry of the inventory: a name, and the recipe where it reads.
#[derive(Debug)]
pub struct RecipeEntry {
    pub name: String,
    pub found: Option<RecipeFacts>,
}

/// An entry that clients are told of.
pub open spec fn is_listed(e: RecipeEntry) -> bool {
    recipe_name(e.name@) && e.found is Some
}

/// What clients are told of an entry.
pub open spec fn is_told(e: RecipeEntry, i: RecipeInfo) -> bool {
    let f = e.found.unwrap();
    &&& i.id == e.name
    &&& i.model == f.model
    &&& i.nodes == f.nodes
    &&& i.runnable == (f.launchable is Ok)
    &&& i.reason == (match f.launchable {
        Ok(_) => None,
        Err(why) => Some(why),
    })
    &&& i.defaults == f.defaults
}

/// The entries among the first `n` that clients are told of.
pub open spec fn listed(entries: Seq<RecipeEntry>, n: int) -> Seq<RecipeEntry>
    decreases n,
{
    if n <= 0 {
        Seq::empty()
    } else if is_listed(entries[n - 1]) {
        listed(entries, n - 1).push(entries[n - 1])
    } else {
        listed(entries, n - 1)
    }
}

/// The recipe inventory. An entry whose name is none, or that does not read,
/// is left out.
pub fn recipes(entries: Vec<RecipeEntry>) -> (r: Vec<RecipeInfo>)
    ensures
        r@.len() == listed(entries@, entries@.len() as int).len(),
        forall|i: int|
            0 <= i < r@.len() ==> is_told(
                listed(entries@, entries@.len() as int)[i],
                #[trigger] r@[i],
            ),
{
    let ghost all = entries@;
    let mut rest = entries;
    let mut out: Vec<RecipeInfo> = Vec::new();
    let ghost mut n: int = 0;
    assert(all.subrange(0, all.len() as int) =~= all);
    while rest.len() > 0
        invariant
            0 <= n <= all.len(),
            rest@ == all.subrange(n, all.len() as int),
            out@.len() == listed(all, n).len(),
            forall|i: int| 0 <= i < out@.len() ==> is_told(listed(all, n)[i], #[trigger] out@[i]),
        decreases rest.len(),
    {
        let e = rest.remove(0);
        assert(e == all[n]);
        assert(rest@ =~= all.subrange(n + 1, all.len() as int));
        let ghost was = out@;
        if is_recipe_name(&e.name) {
            match e.found {
                Some(f) => {
                    let (runnable, reason) = match f.launchable {
                        Ok(_) => (true, None),
                        Err(why) => (false, Some(why)),
                    };
                    out.push(
                        RecipeInfo {
                            id: e.name,
                            model: f.model,
                            nodes: f.nodes,
                            runnable,
                            reason,
                            defaults: f.defaults,
                        },
                    );
                    assert forall|i: int| 0 <= i < out@.len() implies is_told(
                        listed(all, n + 1)[i],
                        #[trigger] out@[i],
                    ) by {
                        if i < was.len() {
                            assert(out@[i] == was[i]);
                        }
                    }
                },
                None => {},
            }
        }
        proof {
            n = n + 1;
        }
    }
    assert(n == all.len());
    out
}

/// The first setting, from `i` on, that is a number with a fraction and that
/// there is a caution against.
pub open spec fn cautioned(
    overrides: Seq<(String, SettingValue)>,
    cautions: Seq<Option<String>>,
    i: int,
) -> Option<(String, String)>
    decreases overrides.len() - i,
{
    if i < 0 || i >= overrides.len() {
        None
    } else if overrides[i].1 is Float && i < cautions.len() && cautions[i] is Some {
        Some((overrides[i].0, cautions[i].unwrap()))
    } else {
        cautioned(overrides, cautions, i + 1)
    }
}

/// The settings asked for, as far as the schema takes them.
pub type Checked = Result<Vec<(String, SettingValue)>, Vec<SettingError>>;

/// What a launch may do.
pub open spec fn gated(
    recipe: Seq<char>,
    can_launch: Result<(), String>,
    known: Option<Result<(), String>>,
    checked: Checked,
    cautions: Seq<Option<String>>,
    r: Result<Vec<(String, SettingValue)>, AgentError>,
) -> bool {
    match can_launch {
        Err(why) => r matches Err(AgentError::NotLaunchable { recipe: name, reason }) && name@
            == recipe && reason@ == why@,
        Ok(_) => match known {
            None => r matches Err(AgentError::UnknownRecipe { recipe: name }) && name@ == recipe,
            Some(Err(why)) => r matches Err(AgentError::NotLaunchable { recipe: name, reason })
                && name@ == recipe && reason@ == why@,
            Some(Ok(_)) => match checked {
                Err(errors) => r == Err::<Vec<(String, SettingValue)>, AgentError>(
                    AgentError::BadSettings { errors },
                ),
                Ok(overrides) => match cautioned(overrides@, cautions, 0) {
                    Some((key, why)) => r matches Err(AgentError::BadSettings { errors })
                        && errors@ == seq![SettingError::Denied { key, reason: why }],
                    None => r == Ok::<Vec<(String, SettingValue)>, AgentError>(overrides),
                },
            },
        },
    }
}

/// Decide whether a recipe may be launched here; with which settings.
///
/// The machine must be able to launch at all, the recipe must be known and
/// launchable, the settings must pass the schema, and none of them may be one
/// that there is a caution against: nobody is at the keyboard to read it.
/// `known` says whether the recipe is known, and if so whether it can be
/// launched; `cautions` holds what there is against each setting.
pub fn may_launch(
    recipe: &str,
    can_launch: &Result<(), String>,
    known: &Option<Result<(), String>>,
    checked: Checked,
    cautions: &Vec<Option<String>>,
) -> (r: Result<Vec<(String, SettingValue)>, AgentError>)
    ensures
        gated(recipe@, *can_launch, *known, checked, cautions@, r),
{
    match can_launch {
        Err(why) => {
            return Err(
                AgentError::NotLaunchable { recipe: text::copy(recipe), reason: why.clone() },
            );
        },
        Ok(_) => {},
    }
    match known {
        None => return Err(AgentError::UnknownRecipe { recipe: text::copy(recipe) }),
        Some(Err(why)) => {
            return Err(
                AgentError::NotLaunchable { recipe: text::copy(recipe), reason: why.clone() },
            );
        },
        Some(Ok(_)) => {},
    }
    let overrides = match checked {
        Ok(o) => o,
        Err(errors) => return Err(AgentError::BadSettings { errors }),
    };
    let mut i: usize = 0;
    while i < overrides.len()
        invariant
            i <= overrides@.len(),
            can_launch is Ok,
            *known matches Some(k) && k is Ok,
            checked == Ok::<Vec<(String, SettingValue)>, Vec<SettingError>>(overrides),
            cautioned(overrides@, cautions@, 0) == cautioned(overrides@, cautions@, i as int),
        decreases overrides@.len() - i,
    {
        let fraction = match &overrides[i].1 {
            SettingValue::Float(_) => true,
            _ => false,
        };
        if fraction && i < cautions.len() {
            match &cautions[i] {
                Some(why) => {
                    let mut errors: Vec<SettingError> = Vec::new();
                    errors.push(
                        SettingError::Denied { key: overrides[i].0.clone(), reason: why.clone() },
                    );
                    assert(errors@ =~= seq![
                        SettingError::Denied { key: overrides@[i as int].0, reason: *why },
                    ]);
                    return Err(AgentError::BadSettings { errors });
                },
                None => {},
            }
        }
        i += 1;
    }
    Ok(overrides)
}

/// Decide whether a recipe may be previewed; with which settings. A preview
/// runs nothing, so it is held to less.
pub fn may_preview(recipe: &str, known: bool, checked: Checked) -> (r: Result<
    Vec<(String, SettingValue)>,
    AgentError,
>)
    ensures
        if !known {
            r matches Err(AgentError::UnknownRecipe { recipe: name }) && name@ == recipe@
        } else {
            match checked {
                Err(errors) => r == Err::<Vec<(String, SettingValue)>, AgentError>(
                    AgentError::BadSettings { errors },
                ),
                Ok(overrides) => r == Ok::<Vec<(String, SettingValue)>, AgentError>(overrides),
            }
        },
{
    if !known {
        return Err(AgentError::UnknownRecipe { recipe: text::copy(recipe) });
    }
    match checked {
        Ok(o) => Ok(o),
        Err(errors) => Err(AgentError::BadSettings { errors }),
    }
}

/// What asking a launch how it is doing comes to. An agent without a source
/// is not ready; a model that does not answer is still loading, and says so.
/// The same holds of its log.
pub fn sampled<R>(recipe: &str, answer: Option<Result<R, String>>) -> (r: Result<R, AgentError>)
    ensures
        match answer {
            None => r == Err::<R, AgentError>(AgentError::NotReady),
            Some(Ok(v)) => r == Ok::<R, AgentError>(v),
            Some(Err(why)) => r matches Err(AgentError::NotLaunchable { recipe: name, reason })
                && name@ == recipe@ && reason == why,
        },
{
    match answer {
        None => Err(AgentError::NotReady),
        Some(Ok(v)) => Ok(v),
        Some(Err(reason)) => Err(
            AgentError::NotLaunchable { recipe: text::copy(recipe), reason },
        ),
    }
}

/// A control request.
#[derive(Debug)]
pub enum ControlReq {
    ListRecipes,
    Preview { recipe: String, settings: Vec<(String, SettingValue)> },
    Launch { recipe: String, settings: Vec<(String, SettingValue)> },
    Stop { recipe: String },
    Status,
    Stats { recipe: String },
    Logs { recipe: String, lines: u32 },
}

/// The answer to a control request; `R` is a reading of a running launch.
#[derive(Debug)]
pub enum ControlRep<R> {
    Recipes { recipes: Vec<RecipeInfo> },
    Previewed { command: String, unapplied: Vec<String> },
    Started { recipe: String, container: String, endpoint: Option<String> },
    Stopped { recipe: String },
    Status { running: Vec<RunningLaunch> },
    Stats { recipe: String, stats: R },
    Logs { recipe: String, container: String, lines: Vec<String>, running: bool },
    /// Who refused, and with what.
    Refused { by: NodeId, error: AgentError },
}

/// What was done about a request.
#[derive(Debug)]
pub enum Done<R> {
    Recipes(Vec<RecipeInfo>),
    Preview(Result<Preview, AgentError>),
    Launch(Result<Started, AgentError>),
    Stop(Result<(), AgentError>),
    Status(Result<Vec<RunningLaunch>, AgentError>),
    Stats(Result<R, AgentError>),
    Logs(Result<LogTail, AgentError>),
}

/// The request is of the kind that was done.
pub open spec fn about<R>(req: ControlReq, done: Done<R>) -> bool {
    match req {
        ControlReq::ListRecipes => done is Recipes,
        ControlReq::Preview { .. } => done is Preview,
        ControlReq::Launch { .. } => done is Launch,
        ControlReq::Stop { .. } => done is Stop,
        ControlReq::Status => done is Status,
        ControlReq::Stats { .. } => done is Stats,
        ControlReq::Logs { .. } => done is Logs,
    }
}

/// The answer to a request, by what was done about it.
pub open spec fn executed<R>(req: ControlReq, done: Done<R>) -> Result<ControlRep<R>, AgentError> {
    match (req, done) {
        (ControlReq::ListRecipes, Done::Recipes(recipes)) => Ok(ControlRep::Recipes { recipes }),
        (ControlReq::Preview { .. }, Done::Preview(p)) => match p {
            Ok(p) => Ok(ControlRep::Previewed { command: p.command, unapplied: p.unapplied }),
            Err(e) => Err(e),
        },
        (ControlReq::Launch { recipe, .. }, Done::Launch(s)) => match s {
            Ok(s) => Ok(
                ControlRep::Started { recipe, container: s.container, endpoint: s.endpoint },
            ),
            Err(e) => Err(e),
        },
        (ControlReq::Stop { recipe }, Done::Stop(s)) => match s {
            Ok(_) => Ok(ControlRep::Stopped { recipe }),
            Err(e) => Err(e),
        },
        (ControlReq::Status, Done::Status(s)) => match s {
            Ok(running) => Ok(ControlRep::Status { running }),
            Err(e) => Err(e),
        },
        (ControlReq::Stats { recipe }, Done::Stats(s)) => match s {
            Ok(stats) => Ok(ControlRep::Stats { recipe, stats }),
            Err(e) => Err(e),
        },
        (ControlReq::Logs { recipe, .. }, Done::Logs(s)) => match s {
            Ok(t) => Ok(
                ControlRep::Logs {
                    recipe,
                    container: t.container,
                    lines: t.lines,
                    running: t.running,
                },
            ),
            Err(e) => Err(e),
        },
        _ => Err(AgentError::NotReady),
    }
}

/// Put what was done about a request into the answer, kind for kind. A refusal
/// stays an error, so that the caller, who knows whose it is, can name itself.
pub fn execute<R>(req: ControlReq, done: Done<R>) -> (r: Result<ControlRep<R>, AgentError>)
    requires
        about(req, done),
    ensures
        r == executed(req, done),
{
    match (req, done) {
        (ControlReq::ListRecipes, Done::Recipes(recipes)) => Ok(ControlRep::Recipes { recipes }),
        (ControlReq::Preview { .. }, Done::Preview(p)) => match p {
            Ok(p) => Ok(ControlRep::Previewed { command: p.command, unapplied: p.unapplied }),
            Err(e) => Err(e),
        },
        (ControlReq::Launch { recipe, .. }, Done::Launch(s)) => match s {
            Ok(s) => Ok(
                ControlRep::Started { recipe, container: s.container, endpoint: s.endpoint },
            ),
            Err(e) => Err(e),
        },
        (ControlReq::Stop { recipe }, Done::Stop(s)) => match s {
            Ok(_) => Ok(ControlRep::Stopped { recipe }),
            Err(e) => Err(e),
        },
        (ControlReq::Status, Done::Status(s)) => match s {
            Ok(running) => Ok(ControlRep::Status { running }),
            Err(e) => Err(e),
        },
        (ControlReq::Stats { recipe }, Done::Stats(s)) => match s {
            Ok(stats) => Ok(ControlRep::Stats { recipe, stats }),
            Err(e) => Err(e),
        },
        (ControlReq::Logs { recipe, .. }, Done::Logs(s)) => match s {
            Ok(t) => Ok(
                ControlRep::Logs {
                    recipe,
                    container: t.container,
                    lines: t.lines,
                    running: t.running,
                },
            ),
            Err(e) => Err(e),
        },
        _ => Err(AgentError::NotReady),
    }
}

// ---------------------------------------------------------------------------
// Laws
// ---------------------------------------------------------------------------

/// Law: nothing is launched past a check. Settings come back only for a
/// machine that can launch, a recipe that is known and launchable, and
/// settings that the schema took and that there is no caution against; and
/// they come back as the schema took them.
pub proof fn law_nothing_is_launched_past_a_check(
    recipe: Seq<char>,
    can_launch: Result<(), String>,
    known: Option<Result<(), String>>,
    checked: Checked,
    cautions: Seq<Option<String>>,
    r: Result<Vec<(String, SettingValue)>, AgentError>,
)
    requires
        gated(recipe, can_launch, known, checked, cautions, r),
        r is Ok,
    ensures
        can_launch is Ok,
        known matches Some(k) && k is Ok,
        checked == Ok::<Vec<(String, SettingValue)>, Vec<SettingError>>(r->Ok_0),
        forall|i: int|
            0 <= i < r->Ok_0@.len() && i < cautions.len() && (#[trigger] r->Ok_0@[i]).1 is Float
                ==> cautions[i] is None,
{
    let settings = r->Ok_0@;
    assert forall|i: int|
        0 <= i < settings.len() && i < cautions.len() && (
        #[trigger] settings[i]).1 is Float implies cautions[i] is None by {
        lemma_no_caution(settings, cautions, 0, i);
    }
}

proof fn lemma_no_caution(
    overrides: Seq<(String, SettingValue)>,
    cautions: Seq<Option<String>>,
    from: int,
    i: int,
)
    requires
        0 <= from <= i < overrides.len(),
        cautioned(overrides, cautions, from) is None,
    ensures
        !(overrides[i].1 is Float && i < cautions.len() && cautions[i] is Some),
    decreases i - from,
{
    if from < i {
        lemma_no_caution(overrides, cautions, from + 1, i);
    }
}

/// Law: a recipe is told of exactly where its name is one and it was found, in
/// the order in which the recipes came.
pub proof fn law_every_recipe_found_is_listed(entries: Seq<RecipeEntry>)
    ensures
        listed(entries, entries.len() as int) == entries.filter(was_found()),
{
    assert(entries.subrange(0, entries.len() as int) =~= entries);
    lemma_listed_filter(entries, entries.len() as int);
}

/// A recipe with a proper name that was found.
pub open spec fn was_found() -> spec_fn(RecipeEntry) -> bool {
    |e: RecipeEntry| recipe_name(e.name@) && e.found is Some
}

proof fn lemma_listed_filter(entries: Seq<RecipeEntry>, n: int)
    requires
        0 <= n <= entries.len(),
    ensures
        listed(entries, n) == entries.subrange(0, n).filter(was_found()),
    decreases n,
{
    reveal(Seq::filter);
    let head = entries.subrange(0, n);
    if n > 0 {
        lemma_listed_filter(entries, n - 1);
        assert(head.drop_last() =~= entries.subrange(0, n - 1));
    } else {
        assert(listed(entries, n) =~= head.filter(was_found()));
    }
}

/// Law: what is told of a recipe is what was found; it can be run exactly
/// where there is no reason against it, and the reason is given where there
/// is.
pub proof fn law_a_recipe_is_told_as_found(e: RecipeEntry, i: RecipeInfo)
    requires
        is_listed(e),
        is_told(e, i),
    ensures
        ({
            let f = e.found.unwrap();
            &&& i.id == e.name && i.model == f.model && i.nodes == f.nodes && i.defaults
                == f.defaults
            &&& i.runnable <==> i.reason is None
            &&& f.launchable matches Err(why) ==> i.reason == Some(why)
            &&& f.launchable is Ok ==> i.runnable
        }),
{
}

/// Law: what passes every check is launched. Where the machine can launch, the
/// recipe is known and launchable, the schema took the settings and there is no
/// caution against any of them, the settings come back.
pub proof fn law_what_passes_every_check_is_launched(
    recipe: Seq<char>,
    can_launch: Result<(), String>,
    known: Option<Result<(), String>>,
    settings: Vec<(String, SettingValue)>,
    cautions: Seq<Option<String>>,
    r: Result<Vec<(String, SettingValue)>, AgentError>,
)
    requires
        gated(recipe, can_launch, known, Ok(settings), cautions, r),
        can_launch is Ok,
        known matches Some(k) && k is Ok,
        forall|i: int|
            0 <= i < settings@.len() && i < cautions.len() && (#[trigger] settings@[i]).1 is Float
                ==> cautions[i] is None,
    ensures
        r == Ok::<Vec<(String, SettingValue)>, AgentError>(settings),
{
    lemma_none_cautioned(settings@, cautions, 0);
}

proof fn lemma_none_cautioned(
    overrides: Seq<(String, SettingValue)>,
    cautions: Seq<Option<String>>,
    from: int,
)
    requires
        0 <= from <= overrides.len(),
        forall|i: int|
            0 <= i < overrides.len() && i < cautions.len() && (#[trigger] overrides[i]).1 is Float
                ==> cautions[i] is None,
    ensures
        cautioned(overrides, cautions, from) is None,
    decreases overrides.len() - from,
{
    if from < overrides.len() {
        lemma_none_cautioned(overrides, cautions, from + 1);
    }
}

/// Law: a launch is refused for the first thing that stands against it, in
/// this order: the machine, the recipe, the settings, a caution.
pub proof fn law_a_refusal_names_what_is_against_it(
    recipe: Seq<char>,
    can_launch: Result<(), String>,
    known: Option<Result<(), String>>,
    checked: Checked,
    cautions: Seq<Option<String>>,
    r: Result<Vec<(String, SettingValue)>, AgentError>,
    i: int,
)
    requires
        gated(recipe, can_launch, known, checked, cautions, r),
    ensures
        can_launch matches Err(why) ==> (r matches Err(
            AgentError::NotLaunchable { recipe: name, reason },
        ) && name@ == recipe && reason@ == why@),
        can_launch is Ok && known is None ==> (r matches Err(
            AgentError::UnknownRecipe { recipe: name },
        ) && name@ == recipe),
        known matches Some(Err(why)) ==> can_launch is Ok ==> (r matches Err(
            AgentError::NotLaunchable { recipe: name, reason },
        ) && name@ == recipe && reason@ == why@),
        can_launch is Ok && (known matches Some(k) && k is Ok) && checked is Err ==> r == Err::<
            Vec<(String, SettingValue)>,
            AgentError,
        >(AgentError::BadSettings { errors: checked->Err_0 }),
        can_launch is Ok && (known matches Some(k) && k is Ok) && (checked matches Ok(s)
            && first_caution(s@, cautions, i)) ==> (r matches Err(
            AgentError::BadSettings { errors },
        ) && errors@ == seq![
            SettingError::Denied {
                key: checked->Ok_0@[i].0,
                reason: cautions[i].unwrap(),
            },
        ]),
{
    if checked matches Ok(s) && first_caution(s@, cautions, i) {
        lemma_first_caution(checked->Ok_0@, cautions, 0, i);
    }
}

/// The setting at `i` is the first that there is a caution against.
pub open spec fn first_caution(
    overrides: Seq<(String, SettingValue)>,
    cautions: Seq<Option<String>>,
    i: int,
) -> bool {
    &&& 0 <= i < overrides.len() && i < cautions.len() && overrides[i].1 is Float && cautions[i] is Some
    &&& forall|k: int|
        0 <= k < i && (#[trigger] overrides[k]).1 is Float ==> cautions[k] is None
}

proof fn lemma_first_caution(
    overrides: Seq<(String, SettingValue)>,
    cautions: Seq<Option<String>>,
    from: int,
    i: int,
)
    requires
        0 <= from <= i,
        first_caution(overrides, cautions, i),
    ensures
        cautioned(overrides, cautions, from) == Some((overrides[i].0, cautions[i].unwrap())),
    decreases i - from,
{
    if from < i {
        assert(!(overrides[from].1 is Float && cautions[from] is Some));
        lemma_first_caution(overrides, cautions, from + 1, i);
    }
}

/// Law: a reply answers its request. What was done comes back as it came out,
/// under the recipe that was asked for, and what failed comes back as its
/// error.
pub proof fn law_a_reply_answers_its_request<R>(req: ControlReq, done: Done<R>)
    requires
        about(req, done),
    ensures
        ({
            let r = executed(req, done);
            &&& done matches Done::Recipes(v) ==> r == Ok::<ControlRep<R>, AgentError>(
                ControlRep::Recipes { recipes: v },
            )
            &&& done matches Done::Preview(Ok(p)) ==> (r matches Ok(
                ControlRep::Previewed { command, unapplied },
            ) && command == p.command && unapplied == p.unapplied)
            &&& done matches Done::Preview(Err(e)) ==> r == Err::<ControlRep<R>, AgentError>(e)
            &&& done matches Done::Launch(Ok(s)) ==> (r matches Ok(
                ControlRep::Started { recipe, container, endpoint },
            ) && container == s.container && endpoint == s.endpoint && req->Launch_recipe
                == recipe)
            &&& done matches Done::Launch(Err(e)) ==> r == Err::<ControlRep<R>, AgentError>(e)
            &&& done matches Done::Stop(Ok(_)) ==> (r matches Ok(ControlRep::Stopped { recipe })
                && req->Stop_recipe == recipe)
            &&& done matches Done::Stop(Err(e)) ==> r == Err::<ControlRep<R>, AgentError>(e)
            &&& done matches Done::Status(Ok(v)) ==> (r matches Ok(ControlRep::Status { running })
                && running == v)
            &&& done matches Done::Status(Err(e)) ==> r == Err::<ControlRep<R>, AgentError>(e)
            &&& done matches Done::Stats(Ok(v)) ==> (r matches Ok(
                ControlRep::Stats { recipe, stats },
            ) && stats == v && req->Stats_recipe == recipe)
            &&& done matches Done::Stats(Err(e)) ==> r == Err::<ControlRep<R>, AgentError>(e)
            &&& done matches Done::Logs(Ok(t)) ==> (r matches Ok(
                ControlRep::Logs { recipe, container, lines, running },
            ) && container == t.container && lines == t.lines && running == t.running
                && req->Logs_recipe == recipe)
            &&& done matches Done::Logs(Err(e)) ==> r == Err::<ControlRep<R>, AgentError>(e)
        }),
{
}

} // verus!
