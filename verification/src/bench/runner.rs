//! The single worker: what becomes of jobs after a restart, and what is kept
//! of finished ones.
//!
//! One job at a time is the point, not a limitation — a gate serves a model
//! that takes most of unified memory and measures speed.
use crate::bench::host::{is_in, law_jobs_are_picked_by_state};
use crate::bench::child::same_process;
use crate::bench::event::JobState;
use crate::bench::job::{opt_view, JobRecord};
use crate::order::{arrange, arranged, lemma_arranged, lemma_arranged_contains, Order};
use crate::text;
use vstd::prelude::*;

verus! {

/// How long the worker waits between looks at the queue when nothing woke
/// it, in milliseconds.
pub const IDLE_POLL_MS: u64 = 5_000;

/// How long a busy box is left before the next probe, in milliseconds.
pub const BUSY_RETRY_MS: u64 = 30_000;

/// What becomes of a job after a restart.
#[derive(Debug, Clone, PartialEq, Eq)]
pub enum Recovery {
    /// It is finished, or still waits for its turn.
    Leave,
    /// Its child is still the same process: wait for it and collect.
    Resume,
    /// It cannot be taken up again.
    Orphan(String),
}

/// The child a record names is still the process it was: the process that
/// now has its pid, if any, started when the child did.
pub open spec fn child_lives(job: JobRecord, start_now: Option<u64>) -> bool {
    job.child_pid is Some && job.child_start_ticks is Some && start_now == job.child_start_ticks
}

/// What becomes of a job after a restart.
pub open spec fn recovers(job: JobRecord, start_now: Option<u64>, r: Recovery) -> bool {
    match job.state {
        JobState::Done | JobState::Queued => r == Recovery::Leave,
        JobState::Running => if child_lives(job, start_now) {
            r == Recovery::Resume
        } else {
            r matches Recovery::Orphan(why) && why@
                == "the agent restarted and the child was gone"@
        },
        JobState::Preparing | JobState::Building | JobState::Collecting => {
            r matches Recovery::Orphan(why) && why@ == "the agent restarted mid-job"@
        },
    }
}

/// After a restart: a job whose child is still the same process is waited
/// for and collected; any other unfinished job is orphaned, and queued jobs
/// stay queued. `start_now` is when the process that now has the child's pid
/// started.
pub fn recover(job: &JobRecord, start_now: Option<u64>) -> (r: Recovery)
    ensures
        recovers(*job, start_now, r),
{
    match job.state {
        JobState::Done => Recovery::Leave,
        JobState::Queued => Recovery::Leave,
        JobState::Running => {
            let lives = match (job.child_pid, job.child_start_ticks) {
                (Some(_), Some(t)) => same_process(start_now, t),
                _ => false,
            };
            if lives {
                Recovery::Resume
            } else {
                Recovery::Orphan(text::copy("the agent restarted and the child was gone"))
            }
        },
        _ => Recovery::Orphan(text::copy("the agent restarted mid-job")),
    }
}

// ---------------------------------------------------------------------------
// Retention
// ---------------------------------------------------------------------------

/// The order of retention: the last updated first.
pub struct LastUpdated;

impl Order<JobRecord> for LastUpdated {
    open spec fn lt(a: JobRecord, b: JobRecord) -> bool {
        a.updated_at_s > b.updated_at_s
    }

    fn less(a: &JobRecord, b: &JobRecord) -> (r: bool) {
        a.updated_at_s > b.updated_at_s
    }

    proof fn asymmetric(a: JobRecord, b: JobRecord) {
    }

    proof fn chained(a: JobRecord, b: JobRecord, c: JobRecord) {
    }
}

/// The finished jobs, in the order given.
pub open spec fn finished(jobs: Seq<JobRecord>) -> Seq<JobRecord> {
    crate::bench::host::in_state(jobs, JobState::Done)
}

/// A finished job is beyond the limits: so many were updated since, or it is
/// too old.
pub open spec fn beyond_limits(
    place: int,
    updated_at_s: u64,
    now_s: u64,
    retain_jobs: u32,
    retain_days: u32,
) -> bool {
    place >= retain_jobs || now_s - updated_at_s > retain_days * 86_400
}

/// The jobs at or after a place that are beyond the limits, the last first.
pub open spec fn pruned(
    s: Seq<JobRecord>,
    from: int,
    now_s: u64,
    retain_jobs: u32,
    retain_days: u32,
) -> Seq<JobRecord>
    decreases s.len() - from,
{
    if from < 0 || from >= s.len() {
        Seq::empty()
    } else {
        let later = pruned(s, from + 1, now_s, retain_jobs, retain_days);
        if beyond_limits(from, s[from].updated_at_s, now_s, retain_jobs, retain_days) {
            later.push(s[from])
        } else {
            later
        }
    }
}

/// The finished jobs to be removed, oldest first.
pub fn retain(jobs: Vec<JobRecord>, now_s: u64, retain_jobs: u32, retain_days: u32) -> (r: Vec<
    JobRecord,
>)
    ensures
        r@ == pruned(
            arranged::<JobRecord, LastUpdated>(finished(jobs@)),
            0,
            now_s,
            retain_jobs,
            retain_days,
        ),
{
    let done = crate::bench::host::pick_state(jobs, JobState::Done);
    let mut sorted = arrange::<JobRecord, LastUpdated>(done);
    let ghost all = sorted@;
    let mut out: Vec<JobRecord> = Vec::new();
    assert(all.subrange(0, all.len() as int) =~= all);
    while sorted.len() > 0
        invariant
            sorted@.len() <= all.len(),
            sorted@ == all.subrange(0, sorted@.len() as int),
            out@ == pruned(all, sorted@.len() as int, now_s, retain_jobs, retain_days),
        decreases sorted.len(),
    {
        let place = sorted.len() - 1;
        let job = sorted.remove(place);
        assert(job == all[place as int]);
        assert(sorted@ =~= all.subrange(0, place as int));
        let too_many = place >= retain_jobs as usize;
        let age: u64 = if now_s >= job.updated_at_s {
            now_s - job.updated_at_s
        } else {
            0
        };
        let too_old = age > retain_days as u64 * 86_400;
        if too_many || too_old {
            out.push(job);
        }
    }
    out
}

/// Builds by age: the last built first.
pub struct LastBuilt;

impl Order<(u64, String)> for LastBuilt {
    open spec fn lt(a: (u64, String), b: (u64, String)) -> bool {
        a.0 > b.0
    }

    fn less(a: &(u64, String), b: &(u64, String)) -> (r: bool) {
        a.0 > b.0
    }

    proof fn asymmetric(a: (u64, String), b: (u64, String)) {
    }

    proof fn chained(a: (u64, String), b: (u64, String), c: (u64, String)) {
    }
}

/// The builds from a place on that may go: all but the running job's.
pub open spec fn evicted(
    s: Seq<(u64, String)>,
    from: int,
    n: int,
    running: Option<Seq<char>>,
) -> Seq<(u64, String)>
    decreases n - from,
{
    if from < 0 || n <= from {
        Seq::empty()
    } else if running == Some(s[n - 1].1@) {
        evicted(s, from, n - 1, running)
    } else {
        evicted(s, from, n - 1, running).push(s[n - 1])
    }
}

/// The builds to be removed: all but the newest `keep_builds`, and never the
/// running job's.
pub fn retain_builds(builds: Vec<(u64, String)>, keep_builds: u32, running_sha: Option<String>) -> (r:
    Vec<(u64, String)>)
    ensures
        ({
            let sorted = arranged::<(u64, String), LastBuilt>(builds@);
            r@ == evicted(
                sorted,
                keep_builds as int,
                sorted.len() as int,
                opt_view(running_sha),
            )
        }),
{
    let sorted = arrange::<(u64, String), LastBuilt>(builds);
    let keep: usize = keep_builds as usize;
    let mut out: Vec<(u64, String)> = Vec::new();
    if keep >= sorted.len() {
        return out;
    }
    let mut i: usize = keep;
    while i < sorted.len()
        invariant
            keep <= i <= sorted.len(),
            keep == keep_builds,
            out@ == evicted(sorted@, keep as int, i as int, opt_view(running_sha)),
        decreases sorted.len() - i,
    {
        let is_running = match &running_sha {
            Some(sha) => text::same(sha, &sorted[i].1),
            None => false,
        };
        if !is_running {
            out.push((sorted[i].0, sorted[i].1.clone()));
        }
        i += 1;
    }
    out
}

// ---------------------------------------------------------------------------
// Laws
// ---------------------------------------------------------------------------

proof fn lemma_pruned(
    s: Seq<JobRecord>,
    from: int,
    now_s: u64,
    retain_jobs: u32,
    retain_days: u32,
    x: JobRecord,
)
    requires
        0 <= from <= s.len(),
        pruned(s, from, now_s, retain_jobs, retain_days).contains(x),
    ensures
        exists|i: int|
            from <= i < s.len() && s[i] == x && #[trigger] beyond_limits(
                i,
                s[i].updated_at_s,
                now_s,
                retain_jobs,
                retain_days,
            ),
    decreases s.len() - from,
{
    let p = pruned(s, from, now_s, retain_jobs, retain_days);
    let k = choose|k: int| 0 <= k < p.len() && p[k] == x;
    if from < s.len() {
        let later = pruned(s, from + 1, now_s, retain_jobs, retain_days);
        if k < later.len() {
            assert(later[k] == x);
            lemma_pruned(s, from + 1, now_s, retain_jobs, retain_days, x);
        } else {
            assert(s[from] == x);
            assert(beyond_limits(from, s[from].updated_at_s, now_s, retain_jobs, retain_days));
        }
    }
}

proof fn lemma_finished(jobs: Seq<JobRecord>, x: JobRecord)
    requires
        finished(jobs).contains(x),
    ensures
        x.state == JobState::Done,
        jobs.contains(x),
    decreases jobs.len(),
{
    let f = finished(jobs);
    let k = choose|k: int| 0 <= k < f.len() && f[k] == x;
    if jobs.len() > 0 {
        let rest = finished(jobs.drop_last());
        if k < rest.len() {
            assert(rest[k] == x);
            lemma_finished(jobs.drop_last(), x);
            let i = choose|i: int| 0 <= i < jobs.drop_last().len() && jobs.drop_last()[i] == x;
            assert(jobs[i] == x);
        } else {
            assert(jobs[jobs.len() - 1] == x);
        }
    }
}

/// Law: retention removes only finished jobs, each of them one that is too
/// old or that enough later ones follow.
pub proof fn law_only_finished_jobs_are_removed(
    jobs: Seq<JobRecord>,
    now_s: u64,
    retain_jobs: u32,
    retain_days: u32,
    x: JobRecord,
)
    requires
        pruned(
            arranged::<JobRecord, LastUpdated>(finished(jobs)),
            0,
            now_s,
            retain_jobs,
            retain_days,
        ).contains(x),
    ensures
        x.state == JobState::Done,
        jobs.contains(x),
        now_s - x.updated_at_s > retain_days * 86_400 || finished(jobs).len() > retain_jobs,
{
    let s = arranged::<JobRecord, LastUpdated>(finished(jobs));
    lemma_pruned(s, 0, now_s, retain_jobs, retain_days, x);
    let i = choose|i: int|
        0 <= i < s.len() && s[i] == x && #[trigger] beyond_limits(
            i,
            s[i].updated_at_s,
            now_s,
            retain_jobs,
            retain_days,
        );
    assert(s[i] == x);
    assert(s.contains(x));
    lemma_arranged::<JobRecord, LastUpdated>(finished(jobs));
    lemma_arranged_contains::<JobRecord, LastUpdated>(finished(jobs), x);
    lemma_finished(jobs, x);
}

/// Law: no more finished jobs are kept than the limit allows.
pub proof fn law_no_more_than_the_limit_is_kept(
    jobs: Seq<JobRecord>,
    now_s: u64,
    retain_jobs: u32,
    retain_days: u32,
)
    ensures
        finished(jobs).len() - pruned(
            arranged::<JobRecord, LastUpdated>(finished(jobs)),
            0,
            now_s,
            retain_jobs,
            retain_days,
        ).len() <= retain_jobs,
{
    let s = arranged::<JobRecord, LastUpdated>(finished(jobs));
    lemma_arranged::<JobRecord, LastUpdated>(finished(jobs));
    lemma_pruned_len(s, 0, now_s, retain_jobs, retain_days);
}

proof fn lemma_pruned_len(
    s: Seq<JobRecord>,
    from: int,
    now_s: u64,
    retain_jobs: u32,
    retain_days: u32,
)
    requires
        0 <= from <= s.len(),
    ensures
        pruned(s, from, now_s, retain_jobs, retain_days).len() <= s.len() - from,
        from <= retain_jobs ==> pruned(s, from, now_s, retain_jobs, retain_days).len() + (
        retain_jobs - from) >= s.len() - from,
        from >= retain_jobs ==> pruned(s, from, now_s, retain_jobs, retain_days).len() == s.len()
            - from,
    decreases s.len() - from,
{
    if from < s.len() {
        lemma_pruned_len(s, from + 1, now_s, retain_jobs, retain_days);
    }
}

/// Law: the running job's build is never evicted.
pub proof fn law_the_running_build_is_kept(
    s: Seq<(u64, String)>,
    from: int,
    n: int,
    running: Seq<char>,
    x: (u64, String),
)
    requires
        0 <= from,
        n <= s.len(),
        evicted(s, from, n, Some(running)).contains(x),
    ensures
        x.1@ != running,
        exists|i: int| from <= i < n && s[i] == x,
    decreases n - from,
{
    let e = evicted(s, from, n, Some(running));
    let k = choose|k: int| 0 <= k < e.len() && e[k] == x;
    if n > from {
        let head = evicted(s, from, n - 1, Some(running));
        if k < head.len() {
            assert(head[k] == x);
            law_the_running_build_is_kept(s, from, n - 1, running, x);
            let i = choose|i: int| from <= i < n - 1 && s[i] == x;
            assert(s[i] == x);
        } else {
            assert(s[n - 1] == x);
        }
    }
}

/// As many as may stay come before it, or it is older than it may be.
pub open spec fn is_due(
    s: Seq<JobRecord>,
    k: int,
    now_s: u64,
    retain_jobs: u32,
    retain_days: u32,
) -> bool {
    k >= retain_jobs || now_s > s[k].updated_at_s + retain_days * 86_400
}

/// Law: retention removes exactly what is beyond a limit. Of the finished
/// jobs, taken by their last change and the latest first, one is removed where
/// as many as may stay come before it, or where it is older than it may be;
/// and the oldest is removed first.
pub proof fn law_what_is_within_the_limits_stays(
    jobs: Seq<JobRecord>,
    now_s: u64,
    retain_jobs: u32,
    retain_days: u32,
    x: JobRecord,
)
    ensures
        ({
            let s = arranged::<JobRecord, LastUpdated>(finished(jobs));
            let gone = pruned(s, 0, now_s, retain_jobs, retain_days);
            &&& forall|a: int, b: int|
                #![trigger s[a], s[b]]
                0 <= a < b < s.len() ==> s[a].updated_at_s >= s[b].updated_at_s
            &&& s.to_multiset() == jobs.filter(is_in(JobState::Done)).to_multiset()
            &&& gone.contains(x) <==> exists|k: int|
                #![trigger s[k]]
                0 <= k < s.len() && s[k] == x && is_due(s, k, now_s, retain_jobs, retain_days)
            &&& forall|a: int, b: int|
                #![trigger gone[a], gone[b]]
                0 <= a < b < gone.len() ==> gone[a].updated_at_s <= gone[b].updated_at_s
        }),
{
    let done = finished(jobs);
    let s = arranged::<JobRecord, LastUpdated>(done);
    lemma_arranged::<JobRecord, LastUpdated>(done);
    law_jobs_are_picked_by_state(jobs, JobState::Done);
    assert forall|a: int, b: int|
        #![trigger s[a], s[b]]
        0 <= a < b < s.len() implies s[a].updated_at_s >= s[b].updated_at_s by {
        assert(!LastUpdated::lt(s[b], s[a]));
    }
    lemma_removed(s, 0, now_s, retain_jobs, retain_days, x);
}

proof fn lemma_removed(
    s: Seq<JobRecord>,
    from: int,
    now_s: u64,
    retain_jobs: u32,
    retain_days: u32,
    x: JobRecord,
)
    requires
        0 <= from <= s.len(),
        forall|a: int, b: int|
            #![trigger s[a], s[b]]
            0 <= a < b < s.len() ==> s[a].updated_at_s >= s[b].updated_at_s,
    ensures
        ({
            let gone = pruned(s, from, now_s, retain_jobs, retain_days);
            &&& gone.contains(x) <==> exists|k: int|
                #![trigger s[k]]
                from <= k < s.len() && s[k] == x && is_due(s, k, now_s, retain_jobs, retain_days)
            &&& forall|a: int|
                0 <= a < gone.len() ==> exists|k: int|
                    #![trigger s[k]]
                    from <= k < s.len() && s[k] == #[trigger] gone[a]
            &&& forall|a: int, b: int|
                #![trigger gone[a], gone[b]]
                0 <= a < b < gone.len() ==> gone[a].updated_at_s <= gone[b].updated_at_s
        }),
    decreases s.len() - from,
{
    let gone = pruned(s, from, now_s, retain_jobs, retain_days);
    if from < s.len() {
        lemma_removed(s, from + 1, now_s, retain_jobs, retain_days, x);
        let later = pruned(s, from + 1, now_s, retain_jobs, retain_days);
        if is_due(s, from, now_s, retain_jobs, retain_days) {
            assert(gone == later.push(s[from]));
            if later.contains(x) {
                let i = choose|i: int| 0 <= i < later.len() && later[i] == x;
                assert(gone[i] == x);
            }
            if s[from] == x {
                assert(gone[later.len() as int] == x);
            }
            if gone.contains(x) {
                let i = choose|i: int| 0 <= i < gone.len() && gone[i] == x;
                if i < later.len() {
                    assert(later[i] == x);
                }
            }
            assert forall|a: int| 0 <= a < gone.len() implies exists|k: int|
                #![trigger s[k]]
                from <= k < s.len() && s[k] == #[trigger] gone[a] by {
                if a < later.len() {
                    assert(gone[a] == later[a]);
                } else {
                    assert(gone[a] == s[from]);
                }
            }
            assert forall|a: int, b: int|
                #![trigger gone[a], gone[b]]
                0 <= a < b < gone.len() implies gone[a].updated_at_s <= gone[b].updated_at_s by {
                assert(gone[a] == later[a]);
                if b < later.len() {
                    assert(gone[b] == later[b]);
                } else {
                    let k = choose|k: int|
                        #![trigger s[k]]
                        from + 1 <= k < s.len() && s[k] == later[a];
                    assert(s[from].updated_at_s >= s[k].updated_at_s);
                }
            }
        } else {
            assert(gone == later);
        }
    } else {
        assert(gone =~= Seq::empty());
    }
}

/// Law: of the builds, taken with the newest first, exactly those are removed
/// that as many as are kept come before, except the running job's.
pub proof fn law_the_newest_builds_are_kept(
    builds: Seq<(u64, String)>,
    keep: int,
    running: Option<Seq<char>>,
    x: (u64, String),
)
    requires
        keep >= 0,
    ensures
        ({
            let s = arranged::<(u64, String), LastBuilt>(builds);
            let gone = evicted(s, keep, s.len() as int, running);
            &&& forall|a: int, b: int|
                #![trigger s[a], s[b]]
                0 <= a < b < s.len() ==> s[a].0 >= s[b].0
            &&& s.to_multiset() == builds.to_multiset()
            &&& gone.contains(x) <==> running != Some(x.1@) && exists|k: int|
                #![trigger s[k]]
                keep <= k < s.len() && s[k] == x
        }),
{
    let s = arranged::<(u64, String), LastBuilt>(builds);
    lemma_arranged::<(u64, String), LastBuilt>(builds);
    assert forall|a: int, b: int|
        #![trigger s[a], s[b]]
        0 <= a < b < s.len() implies s[a].0 >= s[b].0 by {
        assert(!LastBuilt::lt(s[b], s[a]));
    }
    lemma_evicted(s, keep, s.len() as int, running, x);
}

proof fn lemma_evicted(
    s: Seq<(u64, String)>,
    from: int,
    n: int,
    running: Option<Seq<char>>,
    x: (u64, String),
)
    requires
        0 <= from,
        n <= s.len(),
    ensures
        evicted(s, from, n, running).contains(x) <==> running != Some(x.1@) && exists|k: int|
            #![trigger s[k]]
            from <= k < n && s[k] == x,
    decreases n - from,
{
    let gone = evicted(s, from, n, running);
    if from < n {
        lemma_evicted(s, from, n - 1, running, x);
        let head = evicted(s, from, n - 1, running);
        if running == Some(s[n - 1].1@) {
            assert(gone == head);
        } else {
            assert(gone == head.push(s[n - 1]));
            if head.contains(x) {
                let i = choose|i: int| 0 <= i < head.len() && head[i] == x;
                assert(gone[i] == x);
            }
            if s[n - 1] == x {
                assert(gone[head.len() as int] == x);
            }
            if gone.contains(x) {
                let i = choose|i: int| 0 <= i < gone.len() && gone[i] == x;
                if i < head.len() {
                    assert(head[i] == x);
                }
            }
        }
    }
}

/// Law: a restart loses no job. One that waits or is done is left as it is;
/// one that runs is waited for exactly where the process that has its child's
/// pid started when the child did; and every other is brought to its end.
pub proof fn law_a_restart_loses_no_job(job: JobRecord, start_now: Option<u64>, r: Recovery)
    requires
        recovers(job, start_now, r),
    ensures
        r is Leave <==> job.state is Queued || job.state is Done,
        r is Resume <==> job.state is Running && job.child_pid is Some && (
        job.child_start_ticks matches Some(t) && start_now == Some(t)),
        r is Orphan <==> !(r is Leave) && !(r is Resume),
{
}

} // verus!
