//! The decisions behind a job's outside work: what git, the engine and the
//! build say, when a cached binary may be used, and when a child that is
//! being watched has to go.
//!
//! The build cache is `<cache>/build/<sha>/{met,provenance.json}`. A hit
//! requires all three: provenance reads, names this commit, and the binary on
//! disk hashes to what provenance recorded. The binary embeds no commit id,
//! so provenance is the only witness, and a binary that does not hash to its
//! provenance is a binary somebody replaced.
use crate::bench::child::{
    cleaned, parse_progress, parse_verdict, phase_in, sanitize, verdict_in,
};
use crate::bench::event::{copy_verdict, EventKind, LogStream, Verdict};
use crate::bench::job::{below, brief_sha, join_path, short_sha};
use crate::bench::machine::{CacheMiss, CachedBinary, RunEnd};
use crate::bench::reply::MAX_LOG_LINES_PER_EVENT;
use crate::digest::{hex_encode, sha256, sha256_of, to_hex};
use crate::json::{json_of, Json, JsonTree};
use crate::text;
use vstd::prelude::*;

verus! {

// ---------------------------------------------------------------------------
// Commits
// ---------------------------------------------------------------------------

/// Some line, trimmed, begins with a prefix.
pub open spec fn some_line_begins(lines: Seq<Seq<char>>, prefix: Seq<char>) -> bool {
    exists|i: int| 0 <= i < lines.len() && text::begins(text::trimmed(#[trigger] lines[i]), prefix)
}

/// Whether the branches that contain a commit, as git lists them, are of the
/// trusted remote: some line names one of its branches.
pub fn published(branches: &str, remote: &str) -> (r: bool)
    ensures
        r == some_line_begins(text::lines_of(branches@), remote@ + "/"@),
{
    let prefix = text::cat2(remote, "/");
    let lines = text::lines(branches);
    let mut i: usize = 0;
    while i < lines.len()
        invariant
            i <= lines.len(),
            text::views(lines@) == text::lines_of(branches@),
            prefix@ == remote@ + "/"@,
            forall|k: int|
                0 <= k < i ==> !text::begins(
                    text::trimmed(#[trigger] text::lines_of(branches@)[k]),
                    prefix@,
                ),
        decreases lines.len() - i,
    {
        let t = text::trim(&lines[i]);
        assert(text::views(lines@)[i as int] == lines@[i as int]@);
        if text::starts_with(&t, &prefix) {
            assert(text::begins(
                text::trimmed(text::lines_of(branches@)[i as int]),
                prefix@,
            ));
            return true;
        }
        i += 1;
    }
    false
}

/// What is to be done about a commit's worktree.
#[derive(Debug, Clone, Copy, PartialEq, Eq, Structural)]
pub enum WorktreeStep {
    /// It is there, at the commit.
    Reuse,
    /// Something else is there: remove it, then add.
    Replace,
    /// Nothing is there.
    Create,
}

/// A worktree is used again when it is at the commit; anything else in its
/// place is removed first. `head` is what git says the commit there is.
pub fn worktree(present: bool, head: &str, sha: &str) -> (r: WorktreeStep)
    ensures
        r == (if !present {
            WorktreeStep::Create
        } else if text::trimmed(head@) == sha@ {
            WorktreeStep::Reuse
        } else {
            WorktreeStep::Replace
        }),
{
    if !present {
        return WorktreeStep::Create;
    }
    let at = text::trim(head);
    if text::same(&at, sha) {
        WorktreeStep::Reuse
    } else {
        WorktreeStep::Replace
    }
}

/// What a command that failed is reported as: the command, its arguments,
/// and what it complained of.
pub fn command_failure(program: &str, args: &Vec<String>, stderr: &str) -> (s: String)
    ensures
        s@ == program@ + " "@ + text::joined(text::views(args@), " "@) + ": "@ + text::trimmed(
            stderr@,
        ),
{
    let line = text::join(args, " ");
    let why = text::trim(stderr);
    let mut s = text::cat3(program, " ", &line);
    s.append(": ");
    s.append(&why);
    s
}

// ---------------------------------------------------------------------------
// Binaries
// ---------------------------------------------------------------------------

/// What a build leaves beside its binary.
#[derive(Debug, Clone, PartialEq, Eq)]
pub struct Provenance {
    pub sha: String,
    pub binary_sha256: String,
    pub built_at_s: u64,
    pub bytes: u64,
}

/// The digest of a file's contents in hexadecimal, and how many bytes it has.
pub fn sha256_file(contents: &Vec<u8>) -> (r: (String, u64))
    ensures
        r.0@ == to_hex(sha256_of(contents@)),
        r.1 == contents@.len(),
{
    let digest = sha256(contents);
    (hex_encode(&digest), contents.len() as u64)
}

/// A provenance names a commit.
pub open spec fn is_of(provenance: Option<&Provenance>, sha: Seq<char>) -> bool {
    provenance matches Some(p) && p.sha@ == sha
}

/// Whether what a built binary holds has anything to say: it is hashed only
/// where its provenance reads and names the commit.
pub fn must_hash(sha: &str, provenance: Option<&Provenance>) -> (r: bool)
    ensures
        r == is_of(provenance, sha@),
{
    match provenance {
        Some(p) => text::same(&p.sha, sha),
        None => false,
    }
}

/// What a look for a built binary gives: the binary where it is the one that
/// its provenance speaks of, and else what is missing.
pub open spec fn is_cached(
    build_dir: Seq<char>,
    sha: Seq<char>,
    contents: Option<&Vec<u8>>,
    provenance: Option<&Provenance>,
    r: Result<CachedBinary, CacheMiss>,
) -> bool {
    match r {
        Ok(binary) => {
            &&& contents is Some
            &&& is_of(provenance, sha)
            &&& to_hex(sha256_of(contents.unwrap()@)) == provenance.unwrap().binary_sha256@
            &&& binary.path@ == below(build_dir, "met"@)
            &&& binary.sha256@ == provenance.unwrap().binary_sha256@
        },
        Err(CacheMiss::NoBuild) => contents is None,
        Err(CacheMiss::NoProvenance) => contents is Some && provenance is None,
        Err(CacheMiss::WrongSha(named)) => {
            &&& contents is Some
            &&& provenance is Some
            &&& !is_of(provenance, sha)
            &&& named@ == brief_sha(provenance.unwrap().sha@)
        },
        Err(CacheMiss::HashMismatch) => {
            &&& contents is Some
            &&& is_of(provenance, sha)
            &&& to_hex(sha256_of(contents.unwrap()@)) != provenance.unwrap().binary_sha256@
        },
    }
}

/// Whether the binary in a commit's build directory may be used. It may when
/// there is one, its provenance reads and names the commit, and its contents
/// hash to what provenance recorded. Where it is not hashed, its contents do
/// not count.
pub fn cached_binary(
    build_dir: &str,
    sha: &str,
    contents: Option<&Vec<u8>>,
    provenance: Option<&Provenance>,
) -> (r: Result<CachedBinary, CacheMiss>)
    ensures
        is_cached(build_dir@, sha@, contents, provenance, r),
{
    match contents {
        None => Err(CacheMiss::NoBuild),
        Some(bytes) => match provenance {
            None => Err(CacheMiss::NoProvenance),
            Some(p) => {
                if !must_hash(sha, provenance) {
                    return Err(CacheMiss::WrongSha(short_sha(&p.sha)));
                }
                let (actual, _) = sha256_file(bytes);
                if !text::same(&actual, &p.binary_sha256) {
                    return Err(CacheMiss::HashMismatch);
                }
                Ok(CachedBinary { path: join_path(build_dir, "met"), sha256: actual })
            },
        },
    }
}

/// The provenance of a binary that was just built.
pub fn provenance_of(sha: &str, contents: &Vec<u8>, now_ms: u64) -> (p: Provenance)
    ensures
        p.sha@ == sha@,
        p.binary_sha256@ == to_hex(sha256_of(contents@)),
        p.built_at_s == now_ms / 1000,
        p.bytes == contents@.len(),
{
    let (binary_sha256, bytes) = sha256_file(contents);
    Provenance { sha: text::copy(sha), binary_sha256, built_at_s: now_ms / 1000, bytes }
}

/// What a build that is being waited for comes to at one look.
#[derive(Debug, Clone, PartialEq, Eq)]
pub enum BuildStep {
    /// Look again shortly.
    Wait,
    /// It succeeded.
    Built,
    /// It failed; why.
    Failed(String),
    /// It is to be asked to end; what it is reported as.
    Terminate(String),
    /// It is to be killed; what it is reported as.
    Kill(String),
}

/// How a timeout of whole seconds reads.
pub open spec fn seconds_text(s: u32) -> Seq<char> {
    if s == 0 {
        "0ns"@
    } else {
        text::dec(s as nat) + "s"@
    }
}

/// A build that is done is done; one that still runs is ended when its job
/// has been cancelled, or when it has taken too long.
pub fn build(
    exited: Option<bool>,
    cancelled: bool,
    elapsed_ms: u64,
    timeout_s: u32,
    log: &str,
) -> (r: BuildStep)
    ensures
        match exited {
            Some(true) => r == BuildStep::Built,
            Some(false) => r matches BuildStep::Failed(why) && why@ == "cargo build failed (see "@
                + log@ + ")"@,
            None => if cancelled {
                r matches BuildStep::Terminate(why) && why@ == "build cancelled"@
            } else if elapsed_ms > timeout_s * 1000 {
                r matches BuildStep::Kill(why) && why@ == "build exceeded "@ + seconds_text(
                    timeout_s,
                )
            } else {
                r == BuildStep::Wait
            },
        },
{
    match exited {
        Some(success) => if success {
            BuildStep::Built
        } else {
            BuildStep::Failed(text::cat3("cargo build failed (see ", log, ")"))
        },
        None => {
            if cancelled {
                BuildStep::Terminate(text::copy("build cancelled"))
            } else if elapsed_ms > timeout_s as u64 * 1000 {
                let limit = if timeout_s == 0 {
                    text::copy("0ns")
                } else {
                    let n = text::decimal(timeout_s as u64);
                    text::cat2(&n, "s")
                };
                BuildStep::Kill(text::cat2("build exceeded ", &limit))
            } else {
                BuildStep::Wait
            }
        },
    }
}

// ---------------------------------------------------------------------------
// What the binary says it can do
// ---------------------------------------------------------------------------

/// The `id` texts of the first `n` elements of a list.
pub open spec fn ids_of(items: Seq<JsonTree>, n: int) -> Seq<Seq<char>>
    decreases n,
{
    if n <= 0 {
        Seq::empty()
    } else {
        match items[n - 1].at("id"@) {
            Some(JsonTree::Text(s)) => ids_of(items, n - 1).push(s),
            _ => ids_of(items, n - 1),
        }
    }
}

/// The gates that a benchmark list names.
pub open spec fn gates_of(v: JsonTree) -> Seq<Seq<char>> {
    ids_of(v.elements(), v.elements().len() as int)
}

/// The gates that a benchmark list names; one that names none is an error.
pub fn gates_in(v: &Json) -> (r: Result<Vec<String>, String>)
    ensures
        match r {
            Ok(ids) => text::views(ids@) == gates_of(v.tree()) && ids@.len() > 0,
            Err(why) => gates_of(v.tree()).len() == 0 && why@
                == "benchmark list named no benchmarks"@,
        },
{
    let mut ids: Vec<String> = Vec::new();
    let ghost said = v.tree().elements();
    assert(text::views(ids@) =~= Seq::empty());
    if let Some(items) = v.list() {
        let mut i: usize = 0;
        while i < items.len()
            invariant
                i <= items.len(),
                said.len() == items@.len(),
                forall|k: int| 0 <= k < said.len() ==> #[trigger] said[k] == items@[k].tree(),
                text::views(ids@) == ids_of(said, i as int),
            decreases items.len() - i,
        {
            let ghost was = ids@;
            assert(said[i as int] == items@[i as int].tree());
            if let Some(id) = items[i].get("id") {
                if let Some(s) = id.as_text() {
                    ids.push(s.clone());
                    assert(text::views(ids@) =~= text::views(was).push(s@));
                }
            }
            i += 1;
        }
    }
    assert(text::views(ids@).len() == ids@.len());
    if ids.len() == 0 {
        Err(text::copy("benchmark list named no benchmarks"))
    } else {
        Ok(ids)
    }
}

/// The gates that a binary knows, by the benchmark list it prints.
pub fn known_gates(list: &str) -> (r: Result<Vec<String>, String>)
    ensures
        match json_of(list@) {
            Ok(v) => match r {
                Ok(ids) => text::views(ids@) == gates_of(v) && ids@.len() > 0,
                Err(why) => gates_of(v).len() == 0 && why@
                    == "benchmark list named no benchmarks"@,
            },
            Err(e) => r matches Err(why) && why@ == "benchmark list is not JSON: "@ + e,
        },
{
    match crate::json::parse(list) {
        Ok(v) => gates_in(&v),
        Err(e) => Err(text::cat2("benchmark list is not JSON: ", &e)),
    }
}

/// The name of a parameter in a schema: its `key`, or else its `name`.
pub open spec fn param_name(p: JsonTree) -> Option<Seq<char>> {
    match p.at("key"@) {
        Some(k) => k.chars(),
        None => match p.at("name"@) {
            Some(n) => n.chars(),
            None => None,
        },
    }
}

/// The parameters that a schema lists, under `params` or else `parameters`.
pub open spec fn schema_params(v: JsonTree) -> Seq<JsonTree> {
    match v.at("params"@) {
        Some(p) => p.elements(),
        None => match v.at("parameters"@) {
            Some(p) => p.elements(),
            None => Seq::empty(),
        },
    }
}

/// Some listed parameter has this name.
pub open spec fn accepted(params: Seq<JsonTree>, name: Seq<char>) -> bool {
    exists|i: int| 0 <= i < params.len() && param_name(#[trigger] params[i]) == Some(name)
}

/// The names among the first `n` that a schema does not list.
pub open spec fn not_accepted(
    schema: Seq<JsonTree>,
    names: Seq<Seq<char>>,
    n: int,
) -> Seq<Seq<char>>
    decreases n,
{
    if n <= 0 {
        Seq::empty()
    } else if accepted(schema, names[n - 1]) {
        not_accepted(schema, names, n - 1)
    } else {
        not_accepted(schema, names, n - 1).push(names[n - 1])
    }
}

fn named(p: &Json, name: &str) -> (r: bool)
    ensures
        r == (param_name(p.tree()) == Some(name@)),
{
    let v = match p.get("key") {
        Some(k) => Some(k),
        None => p.get("name"),
    };
    match v {
        Some(j) => match j.as_text() {
            Some(s) => text::same(s, name),
            None => false,
        },
        None => false,
    }
}

fn listed(items: &Vec<Json>, said: Ghost<Seq<JsonTree>>, name: &str) -> (r: bool)
    requires
        said@.len() == items@.len(),
        forall|k: int| 0 <= k < said@.len() ==> #[trigger] said@[k] == items@[k].tree(),
    ensures
        r == accepted(said@, name@),
{
    let mut i: usize = 0;
    while i < items.len()
        invariant
            i <= items.len(),
            said@.len() == items@.len(),
            forall|k: int| 0 <= k < said@.len() ==> #[trigger] said@[k] == items@[k].tree(),
            forall|k: int| 0 <= k < i ==> param_name(#[trigger] said@[k]) != Some(name@),
        decreases items.len() - i,
    {
        assert(said@[i as int] == items@[i as int].tree());
        if named(&items[i], name) {
            return true;
        }
        i += 1;
    }
    false
}

/// The parameters that a gate's schema does not list.
pub fn unknown_params(v: &Json, params: &Vec<String>) -> (r: Vec<String>)
    ensures
        text::views(r@) == not_accepted(
            schema_params(v.tree()),
            text::views(params@),
            params@.len() as int,
        ),
{
    let holder = match v.get("params") {
        Some(p) => Some(p),
        None => v.get("parameters"),
    };
    let none: Vec<Json> = Vec::new();
    let items: &Vec<Json> = match holder {
        Some(p) => match p.list() {
            Some(items) => items,
            None => &none,
        },
        None => &none,
    };
    let ghost said = schema_params(v.tree());
    let mut out: Vec<String> = Vec::new();
    let mut i: usize = 0;
    assert(text::views(out@) =~= Seq::empty());
    while i < params.len()
        invariant
            i <= params.len(),
            said.len() == items@.len(),
            forall|k: int| 0 <= k < said.len() ==> #[trigger] said[k] == items@[k].tree(),
            text::views(out@) == not_accepted(said, text::views(params@), i as int),
        decreases params.len() - i,
    {
        let ghost was = out@;
        assert(text::views(params@)[i as int] == params@[i as int]@);
        if !listed(items, Ghost(said), &params[i]) {
            out.push(params[i].clone());
            assert(text::views(out@) =~= text::views(was).push(params@[i as int]@));
        }
        i += 1;
    }
    out
}

/// The parameters that a gate does not accept, by the schema it prints.
pub fn bad_params(schema: &str, params: &Vec<String>) -> (r: Result<Vec<String>, String>)
    ensures
        if params@.len() == 0 {
            r matches Ok(bad) && bad@.len() == 0
        } else {
            match json_of(schema@) {
                Ok(v) => r matches Ok(bad) && text::views(bad@) == not_accepted(
                    schema_params(v),
                    text::views(params@),
                    params@.len() as int,
                ),
                Err(e) => r matches Err(why) && why@ == "benchmark schema is not JSON: "@ + e,
            }
        },
{
    if params.len() == 0 {
        return Ok(Vec::new());
    }
    match crate::json::parse(schema) {
        Ok(v) => Ok(unknown_params(&v, params)),
        Err(e) => Err(text::cat2("benchmark schema is not JSON: ", &e)),
    }
}

// ---------------------------------------------------------------------------
// Watching a child
// ---------------------------------------------------------------------------

/// A child that is being waited for.
#[derive(Debug)]
pub struct Watch {
    pub started_ms: u64,
    pub last_output_ms: u64,
    pub verdict: Option<Verdict>,
    /// Log lines not yet reported.
    pub pending: Vec<String>,
    /// How the run will have ended once the child is gone, and since when it
    /// has been asked to go.
    pub killing: Option<(RunEnd, u64)>,
}

/// The limits of a run.
#[derive(Debug, Clone, Copy, PartialEq, Eq, Structural)]
pub struct Limits {
    pub max_run_s: u64,
    pub stall_timeout_s: u64,
    pub cancel_grace_s: u64,
}

/// What watching comes to at one look.
#[derive(Debug, PartialEq, Eq)]
pub enum WatchStep {
    /// Look again shortly.
    Wait,
    /// Ask the child's group to end.
    Terminate,
    /// Kill the child's group.
    Kill,
    /// The child is gone.
    Ended(RunEnd),
}

/// Where a watch stands after a line, and what is to be reported: progress,
/// and the pending lines once there are enough of them.
pub open spec fn hears(
    a: Watch,
    line: Seq<char>,
    now_ms: u64,
    b: Watch,
    progress: Option<EventKind>,
    log: Option<EventKind>,
) -> bool {
    let clean = cleaned(line);
    let lines = text::views(a.pending@).push(clean);
    &&& b.started_ms == a.started_ms
    &&& b.last_output_ms == now_ms
    &&& b.killing == a.killing
    &&& match verdict_in(clean) {
        Some(v) => {
            &&& b.verdict matches Some(w)
            &&& w.kind == v.0
            &&& w.text@ == cleaned(v.1)
            &&& progress is None
        },
        None => {
            &&& b.verdict == a.verdict
            &&& match phase_in(clean) {
                Some(p) => {
                    &&& progress matches Some(EventKind::Progress { phase, detail })
                    &&& phase@ == cleaned(p)
                    &&& detail@.len() == 0
                },
                None => progress is None,
            }
        },
    }
    &&& if lines.len() >= MAX_LOG_LINES_PER_EVENT {
        &&& b.pending@.len() == 0
        &&& log matches Some(EventKind::Log { stream, lines: told })
        &&& stream == LogStream::Run
        &&& text::views(told@) == lines
    } else {
        &&& text::views(b.pending@) == lines
        &&& log is None
    }
}

/// Milliseconds since a time; none where the clock has not reached it.
pub open spec fn since(t: u64, now_ms: u64) -> int {
    if now_ms >= t {
        now_ms - t
    } else {
        0
    }
}

/// What one look at the child leads to. A child that is gone ends the watch:
/// as it was to end if it had been asked to go, by its own exit code
/// otherwise. One that has been asked to go is killed when its grace is up;
/// one that has not is asked when the job is cancelled, has run too long, or
/// has been silent for too long, in this order.
pub open spec fn looks(
    a: Watch,
    exited: Option<i32>,
    cancelled: bool,
    limits: Limits,
    now_ms: u64,
    b: Watch,
    step: WatchStep,
) -> bool {
    let ran = since(a.started_ms, now_ms);
    let silent = since(a.last_output_ms, now_ms);
    match exited {
        Some(code) => {
            &&& b == a
            &&& step == WatchStep::Ended(
                match a.killing {
                    Some(k) => k.0,
                    None => RunEnd::Exited { code, verdict: a.verdict },
                },
            )
        },
        None => match a.killing {
            Some(k) => {
                &&& b == a
                &&& step == (if since(k.1, now_ms) > limits.cancel_grace_s * 1000 {
                    WatchStep::Kill
                } else {
                    WatchStep::Wait
                })
            },
            None => if cancelled {
                &&& step == WatchStep::Terminate
                &&& b == (Watch { killing: Some((RunEnd::Cancelled, now_ms)), ..a })
            } else if ran > limits.max_run_s * 1000 {
                &&& step == WatchStep::Terminate
                &&& b == (Watch {
                    killing: Some((RunEnd::TimedOut { after_s: (ran / 1000) as u64 }, now_ms)),
                    ..a
                })
            } else if silent > limits.stall_timeout_s * 1000 {
                &&& step == WatchStep::Terminate
                &&& b == (Watch {
                    killing: Some((RunEnd::Stalled { after_s: (silent / 1000) as u64 }, now_ms)),
                    ..a
                })
            } else {
                step == WatchStep::Wait && b == a
            },
        },
    }
}

fn copy_end(e: &RunEnd) -> (r: RunEnd)
    ensures
        r == *e,
{
    match e {
        RunEnd::Exited { code, verdict } => RunEnd::Exited {
            code: *code,
            verdict: copy_verdict(verdict),
        },
        RunEnd::Stalled { after_s } => RunEnd::Stalled { after_s: *after_s },
        RunEnd::TimedOut { after_s } => RunEnd::TimedOut { after_s: *after_s },
        RunEnd::Cancelled => RunEnd::Cancelled,
    }
}

fn over(elapsed_ms: u64, limit_s: u64) -> (r: bool)
    ensures
        r == (elapsed_ms > limit_s * 1000),
{
    elapsed_ms as u128 > limit_s as u128 * 1000
}

impl Watch {
    /// A watch that begins now.
    pub fn begin(now_ms: u64) -> (w: Watch)
        ensures
            w.started_ms == now_ms,
            w.last_output_ms == now_ms,
            w.verdict is None,
            w.pending@.len() == 0,
            w.killing is None,
    {
        Watch {
            started_ms: now_ms,
            last_output_ms: now_ms,
            verdict: None,
            pending: Vec::new(),
            killing: None,
        }
    }

    /// Takes one whole line of the child's output, without its line feed.
    pub fn line(&mut self, line: &str, now_ms: u64) -> (r: (Option<EventKind>, Option<EventKind>))
        ensures
            hears(*old(self), line@, now_ms, *final(self), r.0, r.1),
    {
        self.last_output_ms = now_ms;
        let clean = sanitize(line);
        let mut progress: Option<EventKind> = None;
        match parse_verdict(&clean) {
            Some(v) => {
                self.verdict = Some(v);
            },
            None => {
                progress = parse_progress(&clean);
            },
        }
        let ghost before = self.pending@;
        self.pending.push(clean);
        assert(text::views(self.pending@) =~= text::views(before).push(clean@));
        let log = if self.pending.len() >= MAX_LOG_LINES_PER_EVENT {
            self.flush()
        } else {
            None
        };
        (progress, log)
    }

    /// The pending log lines, to be reported; none where there are none.
    pub fn flush(&mut self) -> (r: Option<EventKind>)
        ensures
            final(self).pending@.len() == 0,
            final(self).started_ms == old(self).started_ms,
            final(self).last_output_ms == old(self).last_output_ms,
            final(self).verdict == old(self).verdict,
            final(self).killing == old(self).killing,
            if old(self).pending@.len() == 0 {
                r is None
            } else {
                r == Some(EventKind::Log { stream: LogStream::Run, lines: old(self).pending })
            },
    {
        if self.pending.len() == 0 {
            return None;
        }
        let mut lines: Vec<String> = Vec::new();
        std::mem::swap(&mut lines, &mut self.pending);
        Some(EventKind::Log { stream: LogStream::Run, lines })
    }

    /// Looks at the child once: `exited` is its exit code where it is gone.
    pub fn wait(&mut self, exited: Option<i32>, cancelled: bool, limits: Limits, now_ms: u64) -> (step:
        WatchStep)
        ensures
            looks(*old(self), exited, cancelled, limits, now_ms, *final(self), step),
    {
        if let Some(code) = exited {
            return match &self.killing {
                Some(k) => WatchStep::Ended(copy_end(&k.0)),
                None => WatchStep::Ended(
                    RunEnd::Exited { code, verdict: copy_verdict(&self.verdict) },
                ),
            };
        }
        if let Some(k) = &self.killing {
            let gone: u64 = if now_ms >= k.1 {
                now_ms - k.1
            } else {
                0
            };
            return if over(gone, limits.cancel_grace_s) {
                WatchStep::Kill
            } else {
                WatchStep::Wait
            };
        }
        let ran: u64 = if now_ms >= self.started_ms {
            now_ms - self.started_ms
        } else {
            0
        };
        let silent: u64 = if now_ms >= self.last_output_ms {
            now_ms - self.last_output_ms
        } else {
            0
        };
        if cancelled {
            self.killing = Some((RunEnd::Cancelled, now_ms));
            WatchStep::Terminate
        } else if over(ran, limits.max_run_s) {
            self.killing = Some((RunEnd::TimedOut { after_s: ran / 1000 }, now_ms));
            WatchStep::Terminate
        } else if over(silent, limits.stall_timeout_s) {
            self.killing = Some((RunEnd::Stalled { after_s: silent / 1000 }, now_ms));
            WatchStep::Terminate
        } else {
            WatchStep::Wait
        }
    }
}

/// Law: a run ends one way. Once a child has been asked to go, how the run
/// ended is settled: no later look asks again or changes it, and it is what
/// the watch ends with.
pub proof fn law_how_a_run_ends_is_settled_once(
    a: Watch,
    exited: Option<i32>,
    cancelled: bool,
    limits: Limits,
    now_ms: u64,
    b: Watch,
    step: WatchStep,
    end: RunEnd,
    asked_ms: u64,
)
    requires
        looks(a, exited, cancelled, limits, now_ms, b, step),
        a.killing == Some((end, asked_ms)),
    ensures
        b.killing == a.killing,
        step != WatchStep::Terminate,
        step matches WatchStep::Ended(e) ==> e == end,
        step == WatchStep::Kill ==> now_ms - asked_ms > limits.cancel_grace_s * 1000,
{
}

/// Law: a child is never killed without having been asked to end, and a
/// healthy one — not cancelled, within its ceiling, not silent — is left
/// alone.
pub proof fn law_a_healthy_child_is_left_alone(
    a: Watch,
    cancelled: bool,
    limits: Limits,
    now_ms: u64,
    b: Watch,
    step: WatchStep,
)
    requires
        looks(a, None, cancelled, limits, now_ms, b, step),
        a.killing is None,
    ensures
        step != WatchStep::Kill,
        !cancelled && since(a.started_ms, now_ms) <= limits.max_run_s * 1000 && since(
            a.last_output_ms,
            now_ms,
        ) <= limits.stall_timeout_s * 1000 ==> step == WatchStep::Wait && b == a,
{
}

/// Law: a run that must end is ended, for the reason that holds. A cancelled
/// one is ended as cancelled, one past its ceiling as timed out, one that has
/// said nothing for too long as stalled, and the time told is how long it took;
/// a child that outlives its grace is killed.
pub proof fn law_a_run_past_its_limits_is_ended(
    a: Watch,
    exited: Option<i32>,
    cancelled: bool,
    limits: Limits,
    now_ms: u64,
    b: Watch,
    step: WatchStep,
)
    requires
        looks(a, exited, cancelled, limits, now_ms, b, step),
        a.started_ms <= now_ms,
        a.last_output_ms <= now_ms,
    ensures
        exited matches Some(code) ==> (a.killing is None ==> step == WatchStep::Ended(
            RunEnd::Exited { code, verdict: a.verdict },
        )),
        exited is Some ==> step is Ended && b == a,
        exited is None ==> !(step is Ended),
        exited is None && a.killing is None ==> {
            let too_long = now_ms > a.started_ms + limits.max_run_s * 1000;
            let too_quiet = now_ms > a.last_output_ms + limits.stall_timeout_s * 1000;
            &&& step == WatchStep::Terminate <==> cancelled || too_long || too_quiet
            &&& step == WatchStep::Terminate || (step == WatchStep::Wait && b.killing is None)
            &&& step == WatchStep::Terminate ==> (b.killing matches Some((end, at)) && at == now_ms
                && match end {
                RunEnd::Cancelled => cancelled,
                RunEnd::TimedOut { after_s } => !cancelled && too_long && after_s * 1000 <= now_ms
                    - a.started_ms < (after_s + 1) * 1000,
                RunEnd::Stalled { after_s } => !cancelled && !too_long && too_quiet && after_s * 1000
                    <= now_ms - a.last_output_ms < (after_s + 1) * 1000,
                RunEnd::Exited { .. } => false,
            })
        },
        exited is None ==> (a.killing matches Some((end, at)) ==> (at <= now_ms ==> (step
            == WatchStep::Kill <==> now_ms > at + limits.cancel_grace_s * 1000))),
        b.verdict == a.verdict && b.pending == a.pending && b.started_ms == a.started_ms
            && b.last_output_ms == a.last_output_ms,
{
}

/// Law: every line of the child's output is reported once and in order, as
/// soon as sixty-four are there; the latest verdict counts, and a line that is
/// a verdict is no progress.
pub proof fn law_every_line_is_reported(
    a: Watch,
    line: Seq<char>,
    now_ms: u64,
    b: Watch,
    progress: Option<EventKind>,
    log: Option<EventKind>,
)
    requires
        hears(a, line, now_ms, b, progress, log),
        a.pending@.len() < 64,
    ensures
        b.pending@.len() < 64,
        log is Some <==> a.pending@.len() == 63,
        (match log {
            Some(EventKind::Log { lines, .. }) => text::views(lines@),
            _ => Seq::empty(),
        }) + text::views(b.pending@) == text::views(a.pending@).push(cleaned(line)),
        log matches Some(k) ==> k is Log && k->Log_stream == LogStream::Run,
        b.last_output_ms == now_ms,
        match verdict_in(cleaned(line)) {
            Some((kind, said)) => b.verdict matches Some(v) && v.kind == kind && v.text@ == cleaned(
                said,
            ) && progress is None,
            None => b.verdict == a.verdict && (progress is Some <==> phase_in(cleaned(line))
                is Some),
        },
        progress matches Some(k) ==> k is Progress && k->phase@ == cleaned(
            phase_in(cleaned(line)).unwrap(),
        ),
{
    assert(text::views(a.pending@).len() == a.pending@.len());
    assert(text::views(b.pending@).len() == b.pending@.len());
    let lines = text::views(a.pending@).push(cleaned(line));
    assert(lines + Seq::<Seq<char>>::empty() =~= lines);
    assert(Seq::<Seq<char>>::empty() + lines =~= lines);
    if b.pending@.len() == 0 {
        assert(text::views(b.pending@) =~= Seq::<Seq<char>>::empty());
    }
}

/// The id that an entry names.
pub open spec fn named_id() -> spec_fn(JsonTree) -> Option<Seq<char>> {
    |j: JsonTree|
        match j.at("id"@) {
            Some(JsonTree::Text(s)) => Some(s),
            _ => None,
        }
}

/// Law: the gates that a binary knows are the ids of its list, all of them and
/// in its order.
pub proof fn law_every_gate_of_the_list_is_known(items: Seq<JsonTree>, n: int)
    requires
        0 <= n <= items.len(),
    ensures
        ids_of(items, n) == items.subrange(0, n).filter_map(named_id()),
    decreases n,
{
    let head = items.subrange(0, n);
    if n > 0 {
        law_every_gate_of_the_list_is_known(items, n - 1);
        assert(head.drop_last() =~= items.subrange(0, n - 1));
        assert(head.last() == items[n - 1]);
    }
    assert(ids_of(items, n) =~= head.filter_map(named_id()));
}

/// Not a parameter of the schema.
pub open spec fn not_in(schema: Seq<JsonTree>) -> spec_fn(Seq<char>) -> bool {
    |name: Seq<char>|
        forall|i: int| 0 <= i < schema.len() ==> param_name(#[trigger] schema[i]) != Some(name)
}

/// Law: exactly those parameters are refused that the schema does not name, in
/// the order in which they were submitted.
pub proof fn law_only_unknown_parameters_are_refused(
    schema: Seq<JsonTree>,
    names: Seq<Seq<char>>,
    n: int,
)
    requires
        0 <= n <= names.len(),
    ensures
        not_accepted(schema, names, n) == names.subrange(0, n).filter(not_in(schema)),
    decreases n,
{
    reveal(Seq::filter);
    let head = names.subrange(0, n);
    if n > 0 {
        law_only_unknown_parameters_are_refused(schema, names, n - 1);
        assert(head.drop_last() =~= names.subrange(0, n - 1));
        assert(head.last() == names[n - 1]);
    }
    assert(not_accepted(schema, names, n) =~= head.filter(not_in(schema)));
}

/// Law: a commit is published where some branch that holds it is the trusted
/// remote's, and not where none is.
pub proof fn law_a_remote_branch_publishes(
    lines: Seq<Seq<char>>,
    remote: Seq<char>,
    i: int,
    branch: Seq<char>,
)
    requires
        0 <= i < lines.len(),
    ensures
        text::trimmed(lines[i]) == remote + "/"@ + branch ==> some_line_begins(
            lines,
            remote + "/"@,
        ),
        (forall|k: int|
            0 <= k < lines.len() ==> !text::begins(
                text::trimmed(#[trigger] lines[k]),
                remote + "/"@,
            )) ==> !some_line_begins(lines, remote + "/"@),
{
    text::law_beginnings_and_ends(text::trimmed(lines[i]), remote + "/"@, branch);
}

/// Law: a binary is used again exactly where it is known to be the one that was
/// built from that commit: it is there, its provenance names the commit, and
/// its bytes hash to what the provenance holds.
pub proof fn law_only_what_was_built_is_used_again(
    build_dir: Seq<char>,
    sha: Seq<char>,
    contents: Option<&Vec<u8>>,
    provenance: Option<&Provenance>,
    r: Result<CachedBinary, CacheMiss>,
)
    requires
        is_cached(build_dir, sha, contents, provenance, r),
    ensures
        r is Ok <==> contents is Some && (provenance matches Some(p) && p.sha@ == sha
            && p.binary_sha256@ == to_hex(sha256_of(contents.unwrap()@))),
        r matches Ok(b) ==> b.path@ == below(build_dir, "met"@) && b.sha256@ == to_hex(
            sha256_of(contents.unwrap()@),
        ),
        r == Err::<CachedBinary, CacheMiss>(CacheMiss::NoBuild) <==> contents is None,
        r == Err::<CachedBinary, CacheMiss>(CacheMiss::NoProvenance) <==> contents is Some
            && provenance is None,
{
}

/// Law: a binary says its parameters under either of two names, and names each
/// by its key or, without one, by its name.
pub proof fn law_parameters_are_read_under_either_name(v: JsonTree, p: JsonTree)
    ensures
        v.at("params"@) matches Some(list) ==> schema_params(v) == list.elements(),
        v.at("params"@) is None ==> (v.at("parameters"@) matches Some(list) ==> schema_params(v)
            == list.elements()),
        v.at("params"@) is None && v.at("parameters"@) is None ==> schema_params(v).len() == 0,
        p.at("key"@) matches Some(JsonTree::Text(k)) ==> param_name(p) == Some(k),
        p.at("key"@) is None ==> (p.at("name"@) matches Some(JsonTree::Text(k)) ==> param_name(p)
            == Some(k)),
        p.at("key"@) is None && p.at("name"@) is None ==> param_name(p) is None,
{
}

/// Law: a time is told in whole seconds, and no time at all in the smallest
/// unit.
pub proof fn law_a_time_is_told_in_seconds(s: u32)
    ensures
        s > 0 ==> seconds_text(s) == text::dec(s as nat) + "s"@,
        s == 0 ==> seconds_text(s) == "0ns"@,
{
}

} // verus!
