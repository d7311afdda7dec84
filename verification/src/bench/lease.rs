//! The server a gate run may leave running on this node for the next one.
//!
//! The agent's part is small: know that the leased server is its own and not
//! a foreign tenant, and stop it when nothing has needed it for a while, or
//! at shutdown.
use crate::bench::child::group_args;
use crate::bench::job::{below, join_path};
use crate::text;
use vstd::prelude::*;

verus! {

/// What the agent needs from the lease.
#[derive(Debug, Clone, PartialEq, Eq)]
pub struct Lease {
    pub pid: u32,
    pub port: u16,
    pub model: String,
    pub owner_pid: u32,
}

/// Where the lease is written.
pub fn path(metrale_home: &str) -> (p: String)
    ensures
        p@ == below(metrale_home@, "serve-lease.json"@),
{
    join_path(metrale_home, "serve-lease.json")
}

/// Is a pid a live process? It is where there is a procfs and the procfs has
/// an entry for it; where there is none no pid is ever alive, so a lease is
/// never ours and the feature is inert rather than wrong.
pub fn alive(procfs: bool, entry: bool) -> (r: bool)
    ensures
        r == (procfs && entry),
{
    procfs && entry
}

/// The leased server that THIS agent owns and that is alive, if any.
pub fn ours(lease: Option<Lease>, own_pid: u32, alive: bool) -> (r: Option<Lease>)
    ensures
        r == (if lease is Some && lease.unwrap().owner_pid == own_pid && alive {
            lease
        } else {
            None
        }),
{
    match lease {
        Some(l) => if l.owner_pid == own_pid && alive {
            Some(l)
        } else {
            None
        },
        None => None,
    }
}

/// What stopping a leased server comes to at one look.
#[derive(Debug, Clone, Copy, PartialEq, Eq, Structural)]
pub enum ReleaseStep {
    /// Look again shortly.
    Wait,
    /// It outlived its grace: kill what is left, then forget the lease.
    Kill,
    /// It is gone: forget the lease.
    Forget,
}

/// After the first signal: wait up to `grace_ms`, then kill what is left.
pub fn release(alive: bool, since_ms: u64, grace_ms: u64) -> (r: ReleaseStep)
    ensures
        r == (if !alive {
            ReleaseStep::Forget
        } else if since_ms < grace_ms {
            ReleaseStep::Wait
        } else {
            ReleaseStep::Kill
        }),
{
    if !alive {
        ReleaseStep::Forget
    } else if since_ms < grace_ms {
        ReleaseStep::Wait
    } else {
        ReleaseStep::Kill
    }
}

/// The arguments of `kill` that end a leased server's process group for good.
pub fn kill_args(lease: &Lease) -> (v: Vec<String>)
    ensures
        text::views(v@) == group_args(lease.pid, "-KILL"@),
{
    let number = text::decimal(lease.pid as u64);
    let mut v: Vec<String> = Vec::new();
    v.push(text::copy("-KILL"));
    v.push(text::copy("--"));
    v.push(text::cat2("-", &number));
    assert(text::views(v@) =~= group_args(lease.pid, "-KILL"@));
    v
}

/// What to do about the lease while the queue is empty.
#[derive(Debug, Clone, PartialEq, Eq)]
pub struct IdleStep {
    /// Since when there has been a lease of ours and nothing to do.
    pub idle_since_ms: Option<u64>,
    /// The server is to be stopped; what to tell the operator.
    pub release: Option<String>,
}

/// What the operator is told when an idle server is stopped.
pub open spec fn release_text(lease: Lease, idle_s: nat) -> Seq<char> {
    "bench: releasing the leased server (pid "@ + text::dec(lease.pid as nat) + ", port "@
        + text::dec(lease.port as nat) + ", "@ + lease.model@ + ") after "@ + text::dec(idle_s)
        + " s idle"@
}

/// What a look at an idle lease gives: nothing while there is none of ours;
/// else the time since which it is idle, until that is long enough ago, and
/// then its release.
pub open spec fn idled(
    ours: Option<&Lease>,
    idle_since_ms: Option<u64>,
    now_ms: u64,
    release_after_s: u32,
    r: IdleStep,
) -> bool {
    match ours {
        None => r.idle_since_ms is None && r.release is None,
        Some(lease) => {
            let since = match idle_since_ms {
                Some(t) => t,
                None => now_ms,
            };
            if now_ms - since < release_after_s * 1000 {
                r.idle_since_ms == Some(since) && r.release is None
            } else {
                &&& r.idle_since_ms is None
                &&& r.release matches Some(told)
                &&& told@ == release_text(*lease, ((now_ms - since) / 1000) as nat)
            }
        },
    }
}

/// Stop the server the last job left leased once the queue has been empty
/// for long enough: a model kept warm for a job that is not coming is a box
/// nobody else can use.
pub fn release_idle_lease(
    ours: Option<&Lease>,
    idle_since_ms: Option<u64>,
    now_ms: u64,
    release_after_s: u32,
) -> (r: IdleStep)
    requires
        idle_since_ms matches Some(t) ==> t <= now_ms,
    ensures
        idled(ours, idle_since_ms, now_ms, release_after_s, r),
{
    match ours {
        None => IdleStep { idle_since_ms: None, release: None },
        Some(lease) => {
            let since: u64 = match idle_since_ms {
                Some(t) => t,
                None => now_ms,
            };
            let elapsed: u64 = now_ms - since;
            if elapsed < release_after_s as u64 * 1000 {
                return IdleStep { idle_since_ms: Some(since), release: None };
            }
            let mut told = text::copy("bench: releasing the leased server (pid ");
            told.append(text::decimal(lease.pid as u64).as_str());
            told.append(", port ");
            told.append(text::decimal(lease.port as u64).as_str());
            told.append(", ");
            told.append(&lease.model);
            told.append(") after ");
            told.append(text::decimal(elapsed / 1000).as_str());
            told.append(" s idle");
            IdleStep { idle_since_ms: None, release: Some(told) }
        },
    }
}

/// Law: a lease that nobody uses is released once, when it has been idle for
/// as long as it may. From the first look at which it is idle the later ones
/// count, however many there are, and the look that finds the time over
/// releases it.
pub proof fn law_an_idle_lease_is_released_in_time(
    lease: Lease,
    first_ms: u64,
    now_ms: u64,
    after_s: u32,
    a: IdleStep,
    b: IdleStep,
)
    requires
        first_ms <= now_ms,
        after_s > 0,
        idled(Some(&lease), None, first_ms, after_s, a),
        idled(Some(&lease), a.idle_since_ms, now_ms, after_s, b),
    ensures
        a.release is None,
        a.idle_since_ms == Some(first_ms),
        b.release is Some <==> now_ms - first_ms >= after_s * 1000,
        b.release is None ==> b.idle_since_ms == Some(first_ms),
        b.release is Some ==> b.idle_since_ms is None,
{
}

/// Law: where no lease is ours nothing is released, and the time starts anew.
pub proof fn law_without_a_lease_nothing_is_released(
    since: Option<u64>,
    now_ms: u64,
    after_s: u32,
    r: IdleStep,
)
    requires
        idled(None, since, now_ms, after_s, r),
    ensures
        r.release is None,
        r.idle_since_ms is None,
{
}

} // verus!
