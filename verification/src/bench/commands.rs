//! The arguments of the commands that a job's outside work is made of.
//!
//! They are rendered from the node's own configuration and from values that
//! were checked on arrival; no text from the wire is an option of any of them.
use crate::text;
use vstd::prelude::*;

verus! {

/// Ask whether a commit is in the repository.
pub fn has_commit_argv(sha: &str) -> (r: Vec<String>)
    ensures
        text::views(r@) == seq!["cat-file"@, "-e"@, sha@ + "^{commit}"@],
{
    let mut r: Vec<String> = Vec::new();
    r.push(text::copy("cat-file"));
    r.push(text::copy("-e"));
    r.push(text::cat2(sha, "^{commit}"));
    assert(text::views(r@) =~= seq!["cat-file"@, "-e"@, sha@ + "^{commit}"@]);
    r
}

/// Fetch from the trusted remote. What follows `--` is never an option.
pub fn fetch_argv(remote: &str) -> (r: Vec<String>)
    ensures
        text::views(r@) == seq!["fetch"@, "--quiet"@, "--"@, remote@],
{
    let mut r: Vec<String> = Vec::new();
    r.push(text::copy("fetch"));
    r.push(text::copy("--quiet"));
    r.push(text::copy("--"));
    r.push(text::copy(remote));
    assert(text::views(r@) =~= seq!["fetch"@, "--quiet"@, "--"@, remote@]);
    r
}

/// List the remote branches that contain a commit.
pub fn published_argv(sha: &str) -> (r: Vec<String>)
    ensures
        text::views(r@) == seq!["branch"@, "-r"@, "--contains"@, sha@],
{
    let mut r: Vec<String> = Vec::new();
    r.push(text::copy("branch"));
    r.push(text::copy("-r"));
    r.push(text::copy("--contains"));
    r.push(text::copy(sha));
    assert(text::views(r@) =~= seq!["branch"@, "-r"@, "--contains"@, sha@]);
    r
}

/// Ask which commit a worktree is at.
pub fn head_argv() -> (r: Vec<String>)
    ensures
        text::views(r@) == seq!["rev-parse"@, "HEAD"@],
{
    let mut r: Vec<String> = Vec::new();
    r.push(text::copy("rev-parse"));
    r.push(text::copy("HEAD"));
    assert(text::views(r@) =~= seq!["rev-parse"@, "HEAD"@]);
    r
}

/// Remove a worktree that is at another commit.
pub fn worktree_remove_argv(dir: &str) -> (r: Vec<String>)
    ensures
        text::views(r@) == seq!["worktree"@, "remove"@, "--force"@, dir@],
{
    let mut r: Vec<String> = Vec::new();
    r.push(text::copy("worktree"));
    r.push(text::copy("remove"));
    r.push(text::copy("--force"));
    r.push(text::copy(dir));
    assert(text::views(r@) =~= seq!["worktree"@, "remove"@, "--force"@, dir@]);
    r
}

/// Add a worktree at a commit. What follows `--` is never an option.
pub fn worktree_add_argv(dir: &str, sha: &str) -> (r: Vec<String>)
    ensures
        text::views(r@) == seq!["worktree"@, "add"@, "--detach"@, "--"@, dir@, sha@],
{
    let mut r: Vec<String> = Vec::new();
    r.push(text::copy("worktree"));
    r.push(text::copy("add"));
    r.push(text::copy("--detach"));
    r.push(text::copy("--"));
    r.push(text::copy(dir));
    r.push(text::copy(sha));
    assert(text::views(r@) =~= seq!["worktree"@, "add"@, "--detach"@, "--"@, dir@, sha@]);
    r
}

/// Build the engine's binary.
pub fn build_argv() -> (r: Vec<String>)
    ensures
        text::views(r@) == seq!["build"@, "--release"@, "--bin"@, "met"@],
{
    let mut r: Vec<String> = Vec::new();
    r.push(text::copy("build"));
    r.push(text::copy("--release"));
    r.push(text::copy("--bin"));
    r.push(text::copy("met"));
    assert(text::views(r@) =~= seq!["build"@, "--release"@, "--bin"@, "met"@]);
    r
}

/// Have the engine fetch its recipes.
pub fn sync_recipes_argv() -> (r: Vec<String>)
    ensures
        text::views(r@) == seq!["sync-recipes"@],
{
    let mut r: Vec<String> = Vec::new();
    r.push(text::copy("sync-recipes"));
    assert(text::views(r@) =~= seq!["sync-recipes"@]);
    r
}

/// Have the engine list its benchmarks.
pub fn list_gates_argv() -> (r: Vec<String>)
    ensures
        text::views(r@) == seq!["benchmark"@, "list"@, "--format"@, "json"@],
{
    let mut r: Vec<String> = Vec::new();
    r.push(text::copy("benchmark"));
    r.push(text::copy("list"));
    r.push(text::copy("--format"));
    r.push(text::copy("json"));
    assert(text::views(r@) =~= seq!["benchmark"@, "list"@, "--format"@, "json"@]);
    r
}

/// Have the engine describe one benchmark.
pub fn list_params_argv(gate: &str) -> (r: Vec<String>)
    ensures
        text::views(r@) == seq!["benchmark"@, "list"@, gate@, "--format"@, "json"@],
{
    let mut r: Vec<String> = Vec::new();
    r.push(text::copy("benchmark"));
    r.push(text::copy("list"));
    r.push(text::copy(gate));
    r.push(text::copy("--format"));
    r.push(text::copy("json"));
    assert(text::views(r@) =~= seq!["benchmark"@, "list"@, gate@, "--format"@, "json"@]);
    r
}

/// Whether the engine has to fetch its recipes before it runs: where that is
/// asked for, and none are there yet.
pub fn needs_recipes(sync: bool, present: bool) -> (r: bool)
    ensures
        r == (sync && !present),
{
    sync && !present
}

} // verus!
