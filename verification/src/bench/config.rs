//! `bench.yaml`: what a node needs to know before it may run a gate.
//!
//! Absent, the bench surface is disabled and says so; present but wrong, the
//! agent refuses to start naming the key. There is no default for a checkout,
//! a signing home or a toolchain: a guessed one would produce records that
//! name the wrong box or verify against nobody's key.
use crate::bench::job::{below, join_path};
use crate::keyed::keyed;
use crate::text;
use vstd::prelude::*;

verus! {

/// The name of the file.
pub const FILE: &'static str = "bench.yaml";

/// The configuration, as written by the operator; the fraction of memory
/// that must be free is kept with whoever measures it.
#[derive(Debug, Clone, PartialEq, Eq)]
pub struct BenchConfig {
    /// A git checkout of the engine. Must have `allowed_remote`.
    pub metrale_repo: String,
    /// The child's home: the signing identity and run history.
    pub metrale_home: String,
    /// The box class the records will name (`gb10`).
    pub hardware: String,
    /// Environment the child gets beyond the scrubbed base, a keyed list.
    /// `PATH_PREPEND` is prepended to `PATH`; every other key is exported as
    /// is.
    pub env: Vec<(String, String)>,
    /// Worktrees, builds, jobs and the shared target directory.
    pub cache_dir: String,
    /// The remote a submitted commit must be reachable from.
    pub allowed_remote: String,
    /// Accept a commit the remote does not have.
    pub allow_unpublished_shas: bool,
    pub queue_depth: u32,
    /// Ceiling on any job's run phase, seconds.
    pub max_run_s: u32,
    pub build_timeout_s: u32,
    /// No child output for this long during the run phase: timed out.
    pub stall_timeout_s: u32,
    pub cancel_grace_s: u32,
    pub min_free_disk_bytes: u64,
    /// Built binaries kept, newest first. The running job's is never evicted.
    pub keep_builds: u32,
    pub retain_jobs: u32,
    pub retain_days: u32,
    /// Sync recipes when the home has no recipe index.
    pub sync_recipes: bool,
    /// Let a gate run leave its server up for the next one.
    pub serve_reuse: bool,
    /// Seconds the leased server may sit idle before the agent stops it.
    pub serve_release_after_s: u32,
    /// Extra files to hand back.
    pub collect_extra: Vec<String>,
}

/// Why the bench surface is off.
#[derive(Debug, Clone, PartialEq, Eq)]
pub struct Disabled(pub String);

/// What the machine says of what the file names.
#[derive(Debug, Clone, PartialEq, Eq)]
pub struct Facts {
    /// The repository holds `.git`, or `HEAD`.
    pub repo_has_git: bool,
    pub repo_has_head: bool,
    pub home_is_dir: bool,
    /// Which of the directories that `PATH_PREPEND` names are directories.
    pub prepend_is_dir: Vec<bool>,
    /// Whether the free-memory fraction is within 0..=1, and how it reads.
    pub fraction_in_range: bool,
    pub fraction: String,
}

/// What the agent's own environment holds.
#[derive(Debug, Clone, PartialEq, Eq)]
pub struct Inherited {
    pub home: Option<String>,
    pub user: Option<String>,
    pub lang: Option<String>,
    pub term: Option<String>,
    pub path: Option<String>,
}

/// How std's `{:?}` shows a string: in quotes, with escapes.
pub uninterp spec fn debug_quoted(s: Seq<char>) -> Seq<char>;

/// `{:?}` of std on a string: the string in quotes, with escapes.
#[verifier::external_body]
pub(crate) fn quoted(s: &str) -> (q: String)
    ensures
        q@ == debug_quoted(s@),
{
    format!("{s:?}")
}

/// An ASCII letter or digit.
pub open spec fn is_alnum(c: char) -> bool {
    ('0' <= c && c <= '9') || ('a' <= c && c <= 'z') || ('A' <= c && c <= 'Z')
}

/// An ASCII letter or digit.
pub fn alnum(c: char) -> (r: bool)
    ensures
        r == is_alnum(c),
{
    ('0' <= c && c <= '9') || ('a' <= c && c <= 'z') || ('A' <= c && c <= 'Z')
}

/// A control character, as Unicode has them.
pub open spec fn is_control(c: char) -> bool {
    c as u32 <= 0x1f || 0x7f <= c as u32 <= 0x9f
}

/// A control character, as Unicode has them.
pub fn control(c: char) -> (r: bool)
    ensures
        r == is_control(c),
{
    let n: u32 = c as u32;
    n <= 0x1f || (0x7f <= n && n <= 0x9f)
}

/// One or more ASCII letters, digits, or `extra`.
pub open spec fn is_name(s: Seq<char>, extra: char) -> bool {
    s.len() > 0 && forall|i: int| 0 <= i < s.len() ==> is_alnum(#[trigger] s[i]) || s[i] == extra
}

/// One or more ASCII letters, digits, or `extra`.
pub fn name_of(s: &str, extra: char) -> (r: bool)
    ensures
        r == is_name(s@, extra),
{
    let v = text::to_chars(s);
    let mut i: usize = 0;
    while i < v.len()
        invariant
            v@ == s@,
            i <= v.len(),
            forall|k: int| 0 <= k < i ==> is_alnum(#[trigger] v@[k]) || v@[k] == extra,
        decreases v.len() - i,
    {
        if !alnum(v[i]) && v[i] != extra {
            assert(!(is_alnum(s@[i as int]) || s@[i as int] == extra));
            return false;
        }
        i += 1;
    }
    v.len() > 0
}

/// Some control character occurs.
pub open spec fn holds_control(s: Seq<char>) -> bool {
    exists|i: int| 0 <= i < s.len() && is_control(#[trigger] s[i])
}

/// Whether some control character occurs.
pub fn has_control(s: &str) -> (r: bool)
    ensures
        r == holds_control(s@),
{
    let v = text::to_chars(s);
    let mut i: usize = 0;
    while i < v.len()
        invariant
            v@ == s@,
            i <= v.len(),
            forall|k: int| 0 <= k < i ==> !is_control(#[trigger] v@[k]),
        decreases v.len() - i,
    {
        if control(v[i]) {
            assert(is_control(s@[i as int]));
            return true;
        }
        i += 1;
    }
    false
}

/// The value at a key, of the first pair that has it.
pub open spec fn value_at(env: Seq<(String, String)>, key: Seq<char>, from: int) -> Option<
    Seq<char>,
>
    decreases env.len() - from,
{
    if from < 0 || from >= env.len() {
        None
    } else if env[from].0@ == key {
        Some(env[from].1@)
    } else {
        value_at(env, key, from + 1)
    }
}

fn lookup<'a>(env: &'a Vec<(String, String)>, key: &str) -> (r: Option<&'a str>)
    ensures
        match r {
            Some(v) => value_at(env@, key@, 0) == Some(v@),
            None => value_at(env@, key@, 0) is None,
        },
{
    let mut i: usize = 0;
    while i < env.len()
        invariant
            i <= env.len(),
            value_at(env@, key@, 0) == value_at(env@, key@, i as int),
        decreases env.len() - i,
    {
        if text::same(&env[i].0, key) {
            return Some(env[i].1.as_str());
        }
        i += 1;
    }
    None
}

/// What is wrong with the first bad entry of the environment.
pub open spec fn env_problem(env: Seq<(String, String)>, from: int) -> Option<Seq<char>>
    decreases env.len() - from,
{
    if from < 0 || from >= env.len() {
        None
    } else if !is_name(env[from].0@, '_') {
        Some("env key "@ + debug_quoted(env[from].0@) + " is not a valid variable name"@)
    } else if holds_control(env[from].1@) {
        Some("env "@ + env[from].0@ + " contains a control character"@)
    } else {
        env_problem(env, from + 1)
    }
}

/// The first directory that is not one.
pub open spec fn missing_dir(pieces: Seq<Seq<char>>, is_dir: Seq<bool>, from: int) -> Option<
    Seq<char>,
>
    decreases pieces.len() - from,
{
    if from < 0 || from >= pieces.len() {
        None
    } else if !(from < is_dir.len() && is_dir[from]) {
        Some(pieces[from])
    } else {
        missing_dir(pieces, is_dir, from + 1)
    }
}

/// The directories that go before the child's search path.
pub open spec fn prepended(cfg: BenchConfig) -> Seq<Seq<char>> {
    match value_at(cfg.env@, "PATH_PREPEND"@, 0) {
        Some(p) => text::split(p, ':'),
        None => Seq::empty(),
    }
}

/// The first thing wrong with a configuration.
pub open spec fn problem(cfg: BenchConfig, facts: Facts) -> Option<Seq<char>> {
    let missing = missing_dir(prepended(cfg), facts.prepend_is_dir@, 0);
    if !facts.repo_has_git && !facts.repo_has_head {
        Some("metrale_repo "@ + cfg.metrale_repo@ + " is not a git checkout"@)
    } else if !facts.home_is_dir {
        Some("metrale_home "@ + cfg.metrale_home@ + " is not a directory"@)
    } else if !is_name(cfg.hardware@, '-') {
        Some("hardware "@ + debug_quoted(cfg.hardware@) + " is not a box class like gb10"@)
    } else if env_problem(cfg.env@, 0) is Some {
        env_problem(cfg.env@, 0)
    } else if missing is Some {
        Some("env.PATH_PREPEND names "@ + missing.unwrap() + ", which is not a directory"@)
    } else if cfg.queue_depth == 0 {
        Some("queue_depth must be at least 1"@)
    } else if !facts.fraction_in_range {
        Some("min_free_fraction must be within 0..=1, got "@ + facts.fraction@)
    } else if cfg.max_run_s == 0 || cfg.build_timeout_s == 0 || cfg.stall_timeout_s == 0 {
        Some("max_run_s, build_timeout_s and stall_timeout_s must be positive"@)
    } else if cfg.allowed_remote@.len() == 0 || cfg.allowed_remote@.contains('/') {
        Some("allowed_remote "@ + debug_quoted(cfg.allowed_remote@) + " is not a remote name"@)
    } else {
        None
    }
}

fn first_env_problem(env: &Vec<(String, String)>) -> (r: Option<String>)
    ensures
        match r {
            Some(s) => env_problem(env@, 0) == Some(s@),
            None => env_problem(env@, 0) is None,
        },
{
    let mut i: usize = 0;
    while i < env.len()
        invariant
            i <= env.len(),
            env_problem(env@, 0) == env_problem(env@, i as int),
        decreases env.len() - i,
    {
        if !name_of(&env[i].0, '_') {
            let q = quoted(&env[i].0);
            return Some(text::cat3("env key ", &q, " is not a valid variable name"));
        }
        if has_control(&env[i].1) {
            return Some(text::cat3("env ", &env[i].0, " contains a control character"));
        }
        i += 1;
    }
    None
}

fn first_missing(pieces: &Vec<String>, is_dir: &Vec<bool>) -> (r: Option<String>)
    ensures
        match r {
            Some(s) => missing_dir(text::views(pieces@), is_dir@, 0) == Some(s@),
            None => missing_dir(text::views(pieces@), is_dir@, 0) is None,
        },
{
    let mut i: usize = 0;
    while i < pieces.len()
        invariant
            i <= pieces.len(),
            missing_dir(text::views(pieces@), is_dir@, 0) == missing_dir(
                text::views(pieces@),
                is_dir@,
                i as int,
            ),
        decreases pieces.len() - i,
    {
        if !(i < is_dir.len() && is_dir[i]) {
            return Some(pieces[i].clone());
        }
        i += 1;
    }
    None
}

/// A variable of the inherited environment, where it is set.
pub open spec fn inherited(name: Seq<char>, value: Option<String>) -> Seq<(Seq<char>, Seq<char>)> {
    match value {
        Some(v) => seq![(name, v@)],
        None => Seq::empty(),
    }
}

/// The entries of the file, in order, without the path to prepend.
pub open spec fn exported(env: Seq<(String, String)>, n: int) -> Seq<(Seq<char>, Seq<char>)>
    decreases n,
{
    if n <= 0 {
        Seq::empty()
    } else if env[n - 1].0@ == "PATH_PREPEND"@ {
        exported(env, n - 1)
    } else {
        exported(env, n - 1).push((env[n - 1].0@, env[n - 1].1@))
    }
}

/// The views of pairs of strings.
pub open spec fn pair_views(v: Seq<(String, String)>) -> Seq<(Seq<char>, Seq<char>)> {
    v.map_values(|p: (String, String)| (p.0@, p.1@))
}

/// The child's search path.
pub open spec fn search_path(cfg: BenchConfig, own: Option<String>) -> Seq<char> {
    let base = match own {
        Some(p) => p@,
        None => "/usr/bin:/bin"@,
    };
    match value_at(cfg.env@, "PATH_PREPEND"@, 0) {
        Some(p) => p + ":"@ + base,
        None => base,
    }
}

/// The child's environment: a scrubbed base plus what the file says.
pub open spec fn environment(cfg: BenchConfig, own: Inherited) -> Seq<(Seq<char>, Seq<char>)> {
    inherited("HOME"@, own.home) + inherited("USER"@, own.user) + inherited("LANG"@, own.lang)
        + inherited("TERM"@, own.term) + seq![
        ("PATH"@, search_path(cfg, own.path)),
        ("METRALE_HOME"@, cfg.metrale_home@),
        ("CARGO_TARGET_DIR"@, below(cfg.cache_dir@, "target"@)),
    ] + exported(cfg.env@, cfg.env@.len() as int)
}

fn inherit(out: &mut Vec<(String, String)>, name: &str, value: &Option<String>)
    ensures
        pair_views(final(out)@) == pair_views(old(out)@) + inherited(name@, *value),
{
    if let Some(v) = value {
        out.push((text::copy(name), v.clone()));
    }
    assert(pair_views(out@) =~= pair_views(old(out)@) + inherited(name@, *value));
}

fn export(out: &mut Vec<(String, String)>, name: &str, value: String)
    ensures
        pair_views(final(out)@) == pair_views(old(out)@).push((name@, value@)),
{
    out.push((text::copy(name), value));
    assert(pair_views(out@) =~= pair_views(old(out)@).push((name@, value@)));
}

impl BenchConfig {
    /// Whether there is a surface to configure at all: not on a platform
    /// without process groups, and not without the file.
    pub fn disabled(unix: bool, path: &str, found: bool) -> (r: Option<Disabled>)
        ensures
            match r {
                Some(d) => if !unix {
                    d.0@ == "bench jobs run on Linux only (process groups, /proc)"@
                } else {
                    !found && d.0@ == "no "@ + path@
                        + " — write one to enable benchmark jobs (see docs/BENCH.md)"@
                },
                None => unix && found,
            },
    {
        if !unix {
            Some(Disabled(text::copy("bench jobs run on Linux only (process groups, /proc)")))
        } else if !found {
            Some(
                Disabled(
                    text::cat3(
                        "no ",
                        path,
                        " — write one to enable benchmark jobs (see docs/BENCH.md)",
                    ),
                ),
            )
        } else {
            None
        }
    }

    /// Everything the file names must exist and be what it says; the first
    /// thing that is not is named.
    pub fn validate(&self, facts: &Facts) -> (r: Result<(), String>)
        ensures
            match r {
                Ok(_) => problem(*self, *facts) is None,
                Err(why) => problem(*self, *facts) == Some(why@),
            },
    {
        if !facts.repo_has_git && !facts.repo_has_head {
            return Err(
                text::cat3("metrale_repo ", &self.metrale_repo, " is not a git checkout"),
            );
        }
        if !facts.home_is_dir {
            return Err(text::cat3("metrale_home ", &self.metrale_home, " is not a directory"));
        }
        if !name_of(&self.hardware, '-') {
            let q = quoted(&self.hardware);
            return Err(text::cat3("hardware ", &q, " is not a box class like gb10"));
        }
        if let Some(why) = first_env_problem(&self.env) {
            return Err(why);
        }
        let pieces = self.prepend_dirs();
        if let Some(piece) = first_missing(&pieces, &facts.prepend_is_dir) {
            return Err(
                text::cat3("env.PATH_PREPEND names ", &piece, ", which is not a directory"),
            );
        }
        if self.queue_depth == 0 {
            return Err(text::copy("queue_depth must be at least 1"));
        }
        if !facts.fraction_in_range {
            return Err(
                text::cat2("min_free_fraction must be within 0..=1, got ", &facts.fraction),
            );
        }
        if self.max_run_s == 0 || self.build_timeout_s == 0 || self.stall_timeout_s == 0 {
            return Err(
                text::copy("max_run_s, build_timeout_s and stall_timeout_s must be positive"),
            );
        }
        if self.allowed_remote.as_str().is_empty() || text::has_char(&self.allowed_remote, '/') {
            let q = quoted(&self.allowed_remote);
            return Err(text::cat3("allowed_remote ", &q, " is not a remote name"));
        }
        Ok(())
    }

    /// Where jobs are kept.
    pub fn jobs_dir(&self) -> (p: String)
        ensures
            p@ == below(self.cache_dir@, "jobs"@),
    {
        join_path(&self.cache_dir, "jobs")
    }

    /// Where built binaries are kept.
    pub fn builds_dir(&self) -> (p: String)
        ensures
            p@ == below(self.cache_dir@, "build"@),
    {
        join_path(&self.cache_dir, "build")
    }

    /// Where commits are checked out.
    pub fn worktrees_dir(&self) -> (p: String)
        ensures
            p@ == below(self.cache_dir@, "worktrees"@),
    {
        join_path(&self.cache_dir, "worktrees")
    }

    /// The target directory that all builds share.
    pub fn target_dir(&self) -> (p: String)
        ensures
            p@ == below(self.cache_dir@, "target"@),
    {
        join_path(&self.cache_dir, "target")
    }

    /// The directories that go before the child's search path, one by one. Each
    /// of them has to be there: whether it is, is asked in this order.
    pub fn prepend_dirs(&self) -> (r: Vec<String>)
        ensures
            text::views(r@) == prepended(*self),
    {
        match lookup(&self.env, "PATH_PREPEND") {
            Some(prepend) => text::split_on(prepend, ':'),
            None => {
                let none: Vec<String> = Vec::new();
                assert(text::views(none@) =~= Seq::empty());
                none
            },
        }
    }

    /// The child's environment: a scrubbed base plus what the file says.
    pub fn child_env(&self, own: &Inherited) -> (out: Vec<(String, String)>)
        ensures
            pair_views(out@) == environment(*self, *own),
    {
        let mut out: Vec<(String, String)> = Vec::new();
        assert(pair_views(out@) =~= Seq::empty());
        inherit(&mut out, "HOME", &own.home);
        inherit(&mut out, "USER", &own.user);
        inherit(&mut out, "LANG", &own.lang);
        inherit(&mut out, "TERM", &own.term);
        let ghost head = inherited("HOME"@, own.home) + inherited("USER"@, own.user) + inherited(
            "LANG"@,
            own.lang,
        ) + inherited("TERM"@, own.term);
        assert(pair_views(out@) =~= head);
        let base = match &own.path {
            Some(p) => p.clone(),
            None => text::copy("/usr/bin:/bin"),
        };
        let path = match lookup(&self.env, "PATH_PREPEND") {
            Some(p) => text::cat3(p, ":", &base),
            None => base,
        };
        export(&mut out, "PATH", path);
        export(&mut out, "METRALE_HOME", self.metrale_home.clone());
        let target = self.target_dir();
        export(&mut out, "CARGO_TARGET_DIR", target);
        let ghost fixed = head + seq![
            ("PATH"@, search_path(*self, own.path)),
            ("METRALE_HOME"@, self.metrale_home@),
            ("CARGO_TARGET_DIR"@, below(self.cache_dir@, "target"@)),
        ];
        assert(pair_views(out@) =~= fixed);
        let mut i: usize = 0;
        assert(fixed + exported(self.env@, 0) =~= fixed);
        while i < self.env.len()
            invariant
                i <= self.env.len(),
                pair_views(out@) == fixed + exported(self.env@, i as int),
            decreases self.env.len() - i,
        {
            let ghost was = pair_views(out@);
            if !text::same(&self.env[i].0, "PATH_PREPEND") {
                export(&mut out, &self.env[i].0, self.env[i].1.clone());
            }
            assert(pair_views(out@) =~= fixed + exported(self.env@, i + 1));
            i += 1;
        }
        out
    }
}

/// The values a file may leave out.
pub const DEFAULT_REMOTE: &'static str = "origin";

pub const DEFAULT_QUEUE_DEPTH: u32 = 2;

pub const DEFAULT_MAX_RUN_S: u32 = 10_800;

pub const DEFAULT_BUILD_TIMEOUT_S: u32 = 3600;

pub const DEFAULT_STALL_TIMEOUT_S: u32 = 1800;

pub const DEFAULT_CANCEL_GRACE_S: u32 = 30;

pub const DEFAULT_MIN_FREE_DISK_BYTES: u64 = 21_474_836_480;

pub const DEFAULT_KEEP_BUILDS: u32 = 5;

pub const DEFAULT_RETAIN_JOBS: u32 = 50;

pub const DEFAULT_RETAIN_DAYS: u32 = 7;

pub const DEFAULT_SERVE_RELEASE_AFTER_S: u32 = 600;

impl BenchConfig {
    /// Every variable is named once, in ascending order.
    pub open spec fn keyed(self) -> bool {
        keyed(self.env@)
    }

    /// A configuration that says only what has no default.
    pub fn minimal(
        metrale_repo: String,
        metrale_home: String,
        hardware: String,
        cache_dir: String,
    ) -> (c: BenchConfig)
        ensures
            c.metrale_repo == metrale_repo,
            c.metrale_home == metrale_home,
            c.hardware == hardware,
            c.cache_dir == cache_dir,
            c.env@.len() == 0,
            c.keyed(),
            c.allowed_remote@ == "origin"@,
            !c.allow_unpublished_shas,
            c.queue_depth == 2,
            c.max_run_s == 10_800,
            c.build_timeout_s == 3600,
            c.stall_timeout_s == 1800,
            c.cancel_grace_s == 30,
            c.min_free_disk_bytes == 20 * 1024 * 1024 * 1024,
            c.keep_builds == 5,
            c.retain_jobs == 50,
            c.retain_days == 7,
            c.sync_recipes,
            !c.serve_reuse,
            c.serve_release_after_s == 600,
            c.collect_extra@.len() == 0,
    {
        BenchConfig {
            metrale_repo,
            metrale_home,
            hardware,
            env: Vec::new(),
            cache_dir,
            allowed_remote: text::copy(DEFAULT_REMOTE),
            allow_unpublished_shas: false,
            queue_depth: DEFAULT_QUEUE_DEPTH,
            max_run_s: DEFAULT_MAX_RUN_S,
            build_timeout_s: DEFAULT_BUILD_TIMEOUT_S,
            stall_timeout_s: DEFAULT_STALL_TIMEOUT_S,
            cancel_grace_s: DEFAULT_CANCEL_GRACE_S,
            min_free_disk_bytes: DEFAULT_MIN_FREE_DISK_BYTES,
            keep_builds: DEFAULT_KEEP_BUILDS,
            retain_jobs: DEFAULT_RETAIN_JOBS,
            retain_days: DEFAULT_RETAIN_DAYS,
            sync_recipes: true,
            serve_reuse: false,
            serve_release_after_s: DEFAULT_SERVE_RELEASE_AFTER_S,
            collect_extra: Vec::new(),
        }
    }
}

/// Law: each variable that the file sets is exported once, in ascending order.
pub proof fn law_each_variable_is_exported_once(cfg: BenchConfig, i: int, j: int)
    requires
        cfg.keyed(),
        0 <= i < j < exported(cfg.env@, cfg.env@.len() as int).len(),
    ensures
        text::precedes(
            exported(cfg.env@, cfg.env@.len() as int)[i].0,
            exported(cfg.env@, cfg.env@.len() as int)[j].0,
        ),
{
    lemma_exported(cfg.env@, cfg.env@.len() as int);
}

proof fn lemma_exported(env: Seq<(String, String)>, n: int)
    requires
        keyed(env),
        0 <= n <= env.len(),
    ensures
        forall|i: int|
            0 <= i < exported(env, n).len() ==> exists|k: int|
                0 <= k < n && (#[trigger] exported(env, n)[i]).0 == (#[trigger] env[k]).0@,
        forall|i: int, j: int|
            0 <= i < j < exported(env, n).len() ==> text::precedes(
                (#[trigger] exported(env, n)[i]).0,
                (#[trigger] exported(env, n)[j]).0,
            ),
    decreases n,
{
    if n > 0 {
        lemma_exported(env, n - 1);
        let head = exported(env, n - 1);
        let now = exported(env, n);
        if env[n - 1].0@ != "PATH_PREPEND"@ {
            assert(now == head.push((env[n - 1].0@, env[n - 1].1@)));
            assert forall|i: int| 0 <= i < now.len() implies exists|k: int|
                0 <= k < n && (#[trigger] now[i]).0 == (#[trigger] env[k]).0@ by {
                if i < head.len() {
                    assert(head[i] == now[i]);
                    let k = choose|k: int|
                        0 <= k < n - 1 && head[i].0 == (#[trigger] env[k]).0@;
                    assert(now[i].0 == env[k].0@);
                } else {
                    assert(now[i].0 == env[n - 1].0@);
                }
            }
            assert forall|i: int, j: int| 0 <= i < j < now.len() implies text::precedes(
                (#[trigger] now[i]).0,
                (#[trigger] now[j]).0,
            ) by {
                assert(now[i] == head[i]);
                if j < head.len() {
                    assert(now[j] == head[j]);
                } else {
                    let k = choose|k: int|
                        0 <= k < n - 1 && head[i].0 == (#[trigger] env[k]).0@;
                    assert(text::precedes(env[k].0@, env[n - 1].0@));
                }
            }
        } else {
            assert forall|i: int| 0 <= i < now.len() implies exists|k: int|
                0 <= k < n && (#[trigger] now[i]).0 == (#[trigger] env[k]).0@ by {
                let k = choose|k: int| 0 <= k < n - 1 && head[i].0 == (#[trigger] env[k]).0@;
                assert(now[i].0 == env[k].0@);
            }
        }
    }
}

/// Law: a configuration is taken exactly where nothing is wrong with it.
pub proof fn law_a_sound_configuration_is_taken(cfg: BenchConfig, facts: Facts)
    ensures
        problem(cfg, facts) is None <==> {
            &&& facts.repo_has_git || facts.repo_has_head
            &&& facts.home_is_dir
            &&& is_name(cfg.hardware@, '-')
            &&& forall|i: int|
                0 <= i < cfg.env@.len() ==> is_name((#[trigger] cfg.env@[i]).0@, '_')
                    && !holds_control(cfg.env@[i].1@)
            &&& forall|i: int|
                0 <= i < prepended(cfg).len() ==> #[trigger] is_there(facts.prepend_is_dir@, i)
            &&& cfg.queue_depth > 0
            &&& facts.fraction_in_range
            &&& cfg.max_run_s > 0 && cfg.build_timeout_s > 0 && cfg.stall_timeout_s > 0
            &&& cfg.allowed_remote@.len() > 0 && !cfg.allowed_remote@.contains('/')
        },
{
    lemma_env_problem(cfg.env@, 0);
    lemma_missing_dir(prepended(cfg), facts.prepend_is_dir@, 0);
}

/// The directory at `i` is there.
pub open spec fn is_there(dirs: Seq<bool>, i: int) -> bool {
    i < dirs.len() && dirs[i]
}

proof fn lemma_env_problem(env: Seq<(String, String)>, from: int)
    requires
        0 <= from <= env.len(),
    ensures
        env_problem(env, from) is None <==> forall|i: int|
            from <= i < env.len() ==> is_name((#[trigger] env[i]).0@, '_') && !holds_control(
                env[i].1@,
            ),
    decreases env.len() - from,
{
    if from < env.len() {
        lemma_env_problem(env, from + 1);
    }
}

proof fn lemma_missing_dir(pieces: Seq<Seq<char>>, dirs: Seq<bool>, from: int)
    requires
        0 <= from <= pieces.len(),
    ensures
        missing_dir(pieces, dirs, from) is None <==> forall|i: int|
            from <= i < pieces.len() ==> #[trigger] is_there(dirs, i),
    decreases pieces.len() - from,
{
    if from < pieces.len() {
        lemma_missing_dir(pieces, dirs, from + 1);
        assert(is_there(dirs, from) == (from < dirs.len() && dirs[from]));
    }
}

/// Law: a name is letters, digits and one more character, and it is not empty;
/// a control character is one that Unicode calls so.
pub proof fn law_a_name_is_plain(s: Seq<char>, extra: char, i: int)
    ensures
        is_name(s, extra) && 0 <= i < s.len() ==> ('0' <= s[i] && s[i] <= '9') || ('a' <= s[i]
            && s[i] <= 'z') || ('A' <= s[i] && s[i] <= 'Z') || s[i] == extra,
        is_name(s, extra) ==> s.len() > 0,
        0 <= i < s.len() && (s[i] as u32 <= 31 || 127 <= s[i] as u32 <= 159) ==> holds_control(s),
{
}

/// Under which name and with which value a variable is exported.
pub open spec fn exports() -> spec_fn((String, String)) -> Option<(Seq<char>, Seq<char>)> {
    |p: (String, String)|
        if p.0@ == "PATH_PREPEND"@ {
            None
        } else {
            Some((p.0@, p.1@))
        }
}

/// Law: what the file sets is exported, all of it, but for the directories to
/// put in front of the search path; and those stand in front of it.
pub proof fn law_what_is_set_is_exported(
    cfg: BenchConfig,
    own: Inherited,
    i: int,
)
    ensures
        exported(cfg.env@, cfg.env@.len() as int) == cfg.env@.filter_map(exports()),
        ({
            let e = environment(cfg, own);
            let base = match own.path {
                Some(p) => p@,
                None => "/usr/bin:/bin"@,
            };
            &&& e.contains(("METRALE_HOME"@, cfg.metrale_home@))
            &&& e.contains(("CARGO_TARGET_DIR"@, below(cfg.cache_dir@, "target"@)))
            &&& own.home matches Some(v) ==> e.contains(("HOME"@, v@))
            &&& own.user matches Some(v) ==> e.contains(("USER"@, v@))
            &&& own.lang matches Some(v) ==> e.contains(("LANG"@, v@))
            &&& own.term matches Some(v) ==> e.contains(("TERM"@, v@))
            &&& 0 <= i < cfg.env@.len() && cfg.env@[i].0@ == "PATH_PREPEND"@ && (forall|k: int|
                0 <= k < i ==> (#[trigger] cfg.env@[k]).0@ != "PATH_PREPEND"@) ==> e.contains(
                ("PATH"@, cfg.env@[i].1@ + ":"@ + base),
            )
            &&& (forall|k: int|
                0 <= k < cfg.env@.len() ==> (#[trigger] cfg.env@[k]).0@ != "PATH_PREPEND"@)
                ==> e.contains(("PATH"@, base))
        }),
{
    let env = cfg.env@;
    let key = "PATH_PREPEND"@;
    assert(env.subrange(0, env.len() as int) =~= env);
    lemma_exports(env, env.len() as int);
    if 0 <= i < env.len() && env[i].0@ == key && (forall|k: int|
        0 <= k < i ==> (#[trigger] env[k]).0@ != key) {
        lemma_value_first(env, key, 0, i);
    }
    if forall|k: int| 0 <= k < env.len() ==> (#[trigger] env[k]).0@ != key {
        lemma_no_value(env, key, 0);
    }
    let a = inherited("HOME"@, own.home);
    let b = a + inherited("USER"@, own.user);
    let c = b + inherited("LANG"@, own.lang);
    let d = c + inherited("TERM"@, own.term);
    let e = environment(cfg, own);
    let n = d.len() as int;
    assert(e[n] == ("PATH"@, search_path(cfg, own.path)));
    assert(e[n + 1] == ("METRALE_HOME"@, cfg.metrale_home@));
    assert(e[n + 2] == ("CARGO_TARGET_DIR"@, below(cfg.cache_dir@, "target"@)));
    if own.home is Some {
        assert(e[0] == ("HOME"@, own.home.unwrap()@));
    }
    if own.user is Some {
        assert(e[a.len() as int] == ("USER"@, own.user.unwrap()@));
    }
    if own.lang is Some {
        assert(e[b.len() as int] == ("LANG"@, own.lang.unwrap()@));
    }
    if own.term is Some {
        assert(e[c.len() as int] == ("TERM"@, own.term.unwrap()@));
    }
}

proof fn lemma_exports(env: Seq<(String, String)>, n: int)
    requires
        0 <= n <= env.len(),
    ensures
        exported(env, n) == env.subrange(0, n).filter_map(exports()),
    decreases n,
{
    let head = env.subrange(0, n);
    if n > 0 {
        lemma_exports(env, n - 1);
        assert(head.drop_last() =~= env.subrange(0, n - 1));
        assert(exported(env, n) =~= head.filter_map(exports()));
    } else {
        assert(exported(env, n) =~= head.filter_map(exports()));
    }
}

proof fn lemma_value_first(env: Seq<(String, String)>, key: Seq<char>, from: int, i: int)
    requires
        0 <= from <= i < env.len(),
        env[i].0@ == key,
        forall|k: int| 0 <= k < i ==> (#[trigger] env[k]).0@ != key,
    ensures
        value_at(env, key, from) == Some(env[i].1@),
    decreases i - from,
{
    if from < i {
        lemma_value_first(env, key, from + 1, i);
    }
}

proof fn lemma_no_value(env: Seq<(String, String)>, key: Seq<char>, from: int)
    requires
        0 <= from <= env.len(),
        forall|k: int| 0 <= k < env.len() ==> (#[trigger] env[k]).0@ != key,
    ensures
        value_at(env, key, from) is None,
    decreases env.len() - from,
{
    if from < env.len() {
        lemma_no_value(env, key, from + 1);
    }
}

} // verus!
