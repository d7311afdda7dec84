//! The node's capability report for a bench submitter: facts, read fresh.
use crate::bench::host::queued_now;
use crate::bench::event::copy_strings;
use crate::bench::host::{queue_of, queued, BenchHost};
use crate::bench::job::{first_bytes, JobRecord, JobSummary};
use crate::bench::ports_std::Provenance;
use crate::digest::{ed25519_public, ed25519_public_of, hex_encode, sha256, sha256_of, to_hex};
use crate::fleet::{Metric, NodeDescriptor, NodeVitals};
use crate::node::NodeId;
use crate::order::{arrange, arranged, Order};
use crate::text;
use vstd::prelude::*;

verus! {

/// The name a signer goes by: the first eight bytes of the digest of its
/// public key.
pub open spec fn fingerprint(public: Seq<u8>) -> Seq<char> {
    to_hex(sha256_of(public).subrange(0, 8))
}

/// The name that a public key goes by, and the key, both in hexadecimal.
pub fn signer_of(public: Option<Vec<u8>>) -> (r: (Option<String>, Option<String>))
    ensures
        match public {
            Some(key) => r.0 matches Some(name) && name@ == fingerprint(key@) && (r.1 matches Some(
                hex,
            ) && hex@ == to_hex(key@)),
            None => r.0 is None && r.1 is None,
        },
{
    match public {
        Some(key) => {
            let digest = sha256(&key);
            let front = first_bytes(&digest, 8);
            (Some(hex_encode(&front)), Some(hex_encode(&key)))
        },
        None => (None, None),
    }
}

/// The signing identity that the engine would use, out of its key document:
/// the name it goes by, and its public key. Where there is no document, or it
/// holds no key, there is neither.
pub fn signer(document: &Option<Vec<u8>>) -> (r: (Option<String>, Option<String>))
    ensures
        match document {
            Some(d) => match ed25519_public_of(d@) {
                Some(key) => r.0 matches Some(name) && name@ == fingerprint(key) && (r.1
                    matches Some(hex) && hex@ == to_hex(key)),
                None => r.0 is None && r.1 is None,
            },
            None => r.0 is None && r.1 is None,
        },
{
    match document {
        Some(d) => signer_of(ed25519_public(d)),
        None => (None, None),
    }
}

/// Builds, the newest first.
pub struct NewestBuild;

impl Order<Provenance> for NewestBuild {
    open spec fn lt(a: Provenance, b: Provenance) -> bool {
        a.built_at_s > b.built_at_s
    }

    fn less(a: &Provenance, b: &Provenance) -> (r: bool) {
        a.built_at_s > b.built_at_s
    }

    proof fn asymmetric(a: Provenance, b: Provenance) {
    }

    proof fn chained(a: Provenance, b: Provenance, c: Provenance) {
    }
}

/// The builds that are kept, the newest first. `found` is what was written
/// beside each binary, where it reads.
pub fn built_shas(found: Vec<Provenance>) -> (r: Vec<Provenance>)
    ensures
        r@ == arranged::<Provenance, NewestBuild>(found@),
{
    arrange::<Provenance, NewestBuild>(found)
}

/// The checkout that commits are built from.
#[derive(Debug, Clone, PartialEq, Eq)]
pub struct RepoInfo {
    pub path: String,
    pub remote_name: String,
    pub remote_url: String,
    pub head_sha: Option<String>,
    pub fetched_at_s: Option<u64>,
}

/// What was read of the checkout: each where it could be.
#[derive(Debug, Clone, PartialEq, Eq)]
pub struct RepoReadings {
    /// What the remote's URL was answered with.
    pub remote_url: Option<String>,
    /// What the head was answered with.
    pub head: Option<String>,
    pub fetched_at_s: Option<u64>,
}

/// Forty hexadecimal digits.
pub open spec fn is_sha(s: Seq<char>) -> bool {
    s.len() == 40 && forall|i: int|
        0 <= i < s.len() ==> crate::node::hex_value(#[trigger] s[i]) is Some
}

fn sha_shaped(s: &str) -> (r: bool)
    ensures
        r == is_sha(s@),
{
    let v = text::to_chars(s);
    if v.len() != 40 {
        return false;
    }
    let mut i: usize = 0;
    while i < v.len()
        invariant
            i <= v.len(),
            v@ == s@,
            v.len() == 40,
            forall|k: int| 0 <= k < i ==> crate::node::hex_value(#[trigger] s@[k]) is Some,
        decreases v.len() - i,
    {
        let c = v[i];
        let digit = ('0' <= c && c <= '9') || ('a' <= c && c <= 'f') || ('A' <= c && c <= 'F');
        if !digit {
            return false;
        }
        i += 1;
    }
    true
}

/// The checkout, as reported: spaces around what was answered are dropped, a
/// remote without a URL has an empty one, and a head that is no commit is
/// none.
pub open spec fn is_repo(path: Seq<char>, remote: Seq<char>, f: RepoReadings, r: RepoInfo) -> bool {
    &&& r.path@ == path
    &&& r.remote_name@ == remote
    &&& r.remote_url@ == (match f.remote_url {
        Some(u) => text::trimmed(u@),
        None => Seq::empty(),
    })
    &&& match r.head_sha {
        Some(h) => f.head matches Some(a) && h@ == text::trimmed(a@) && is_sha(h@),
        None => match f.head {
            Some(a) => !is_sha(text::trimmed(a@)),
            None => true,
        },
    }
    &&& r.fetched_at_s == f.fetched_at_s
}

/// The checkout, as reported.
pub fn repo_info(path: &str, remote: &str, f: &RepoReadings) -> (r: RepoInfo)
    ensures
        is_repo(path@, remote@, *f, r),
{
    let remote_url = match &f.remote_url {
        Some(u) => text::trim(u),
        None => String::new(),
    };
    let head_sha = match &f.head {
        Some(a) => {
            let h = text::trim(a);
            if sha_shaped(&h) {
                Some(h)
            } else {
                None
            }
        },
        None => None,
    };
    RepoInfo {
        path: text::copy(path),
        remote_name: text::copy(remote),
        remote_url,
        head_sha,
        fetched_at_s: f.fetched_at_s,
    }
}

/// The accelerator of a node.
#[derive(Debug, Clone, PartialEq)]
pub struct GpuInfo<F> {
    pub name: String,
    pub count: u32,
    pub driver_version: String,
    pub cuda_version: Option<String>,
    pub sm_clock_mhz: Metric<F>,
    pub sm_clock_healthy_mhz: Option<u32>,
    pub temperature_c: Metric<F>,
    pub memory_total_bytes: Metric<F>,
    pub memory_used_frac: Metric<F>,
    pub memory_is_unified: bool,
}

/// What the accelerator says it is.
#[derive(Debug, Clone, PartialEq, Eq)]
pub struct GpuIdentity {
    pub name: String,
    pub driver: String,
    pub count: u32,
    pub cuda: Option<String>,
}

/// What a node is asked before it is reported: `F` is a reading, `T` a
/// thermal report.
#[derive(Debug)]
pub struct NodeFacts<F, T> {
    pub agent_version: String,
    pub peer_version_max: u32,
    pub gpu: Option<GpuIdentity>,
    pub thermal: T,
    /// Why the machine is not free, one reason each.
    pub busy: Vec<String>,
    /// The engine's key document.
    pub key_document: Option<Vec<u8>>,
    pub repo: RepoReadings,
    pub recipes_synced: bool,
    pub builds: Vec<Provenance>,
    /// The record of the job being run, where it reads.
    pub running: Option<JobRecord>,
    /// Every job, where they can be listed.
    pub jobs: Result<Vec<JobRecord>, String>,
    pub disk_free_bytes: Option<F>,
    pub free_fraction: Option<F>,
    /// The fraction of memory that must be free.
    pub min_free_fraction: F,
}

/// The capability report of a node.
#[derive(Debug)]
pub struct BenchNodeInfo<F, T> {
    pub node: NodeId,
    pub name: String,
    pub agent_version: String,
    pub peer_version_max: u32,
    pub bench_enabled: bool,
    pub disabled_reason: Option<String>,
    pub gpu: Option<GpuInfo<F>>,
    pub thermal: Option<T>,
    pub alerts: Vec<String>,
    pub hardware_class: Option<String>,
    pub metrale_repo: Option<RepoInfo>,
    pub metrale_home: Option<String>,
    pub signer_fp: Option<String>,
    pub signer_pubkey_hex: Option<String>,
    pub recipes_synced: bool,
    pub built_shas: Vec<Provenance>,
    pub busy: bool,
    pub busy_reason: Option<String>,
    pub running_job: Option<JobSummary>,
    pub queued: u32,
    pub queue_depth: u32,
    pub disk_free_bytes: Metric<F>,
    pub min_free_disk_bytes: u64,
    pub min_free_fraction: F,
    pub host_free_fraction: Metric<F>,
    pub max_run_s: u32,
}

/// The row of this machine, from `i` on.
pub open spec fn local_row<F>(nodes: Seq<NodeDescriptor<F>>, i: int) -> Option<NodeDescriptor<F>>
    decreases nodes.len() - i,
{
    if i < 0 || i >= nodes.len() {
        None
    } else if nodes[i].is_local {
        Some(nodes[i])
    } else {
        local_row(nodes, i + 1)
    }
}

/// The vitals of this machine.
pub open spec fn local_vitals<F>(row: Option<NodeDescriptor<F>>) -> Option<NodeVitals<F>> {
    match row {
        Some(n) => n.vitals,
        None => None,
    }
}

/// The accelerator, with what the vitals say of it. What they do not say is
/// unsupported, never zero.
pub open spec fn gpu_report<F>(id: GpuIdentity, v: Option<NodeVitals<F>>, g: GpuInfo<F>) -> bool {
    &&& g.name == id.name
    &&& g.count == id.count
    &&& g.driver_version == id.driver
    &&& g.cuda_version == id.cuda
    &&& g.sm_clock_mhz == (match v {
        Some(v) => v.sm_clock_mhz,
        None => Metric::Unsupported,
    })
    &&& g.sm_clock_healthy_mhz == (match v {
        Some(v) => v.sm_clock_healthy_mhz,
        None => None,
    })
    &&& g.temperature_c == (match v {
        Some(v) => v.temperature_c,
        None => Metric::Unsupported,
    })
    &&& g.memory_total_bytes == (match v {
        Some(v) => v.memory_total_bytes,
        None => Metric::Unsupported,
    })
    &&& g.memory_used_frac == (match v {
        Some(v) => v.memory_used_frac,
        None => Metric::Unsupported,
    })
    &&& g.memory_is_unified
}

fn gpu_info<F: Copy>(id: GpuIdentity, v: Option<NodeVitals<F>>) -> (g: GpuInfo<F>)
    ensures
        gpu_report(id, v, g),
{
    match v {
        Some(v) => GpuInfo {
            name: id.name,
            count: id.count,
            driver_version: id.driver,
            cuda_version: id.cuda,
            sm_clock_mhz: v.sm_clock_mhz,
            sm_clock_healthy_mhz: v.sm_clock_healthy_mhz,
            temperature_c: v.temperature_c,
            memory_total_bytes: v.memory_total_bytes,
            memory_used_frac: v.memory_used_frac,
            memory_is_unified: true,
        },
        None => GpuInfo {
            name: id.name,
            count: id.count,
            driver_version: id.driver,
            cuda_version: id.cuda,
            sm_clock_mhz: Metric::Unsupported,
            sm_clock_healthy_mhz: None,
            temperature_c: Metric::Unsupported,
            memory_total_bytes: Metric::Unsupported,
            memory_used_frac: Metric::Unsupported,
            memory_is_unified: true,
        },
    }
}

/// The report of a node whose bench surface is on.
pub open spec fn reported<F: Copy, T>(
    host: BenchHost,
    nodes: Seq<NodeDescriptor<F>>,
    f: NodeFacts<F, T>,
    r: BenchNodeInfo<F, T>,
) -> bool {
    let row = local_row(nodes, 0);
    &&& r.node == host.local
    &&& r.name@ == (match row {
        Some(n) => n.name@,
        None => "unknown"@,
    })
    &&& r.agent_version == f.agent_version
    &&& r.peer_version_max == f.peer_version_max
    &&& r.bench_enabled
    &&& r.disabled_reason is None
    &&& match f.gpu {
        Some(id) => r.gpu matches Some(g) && gpu_report(id, local_vitals(row), g),
        None => r.gpu is None,
    }
    &&& r.thermal == Some(f.thermal)
    &&& r.alerts@ == (match row {
        Some(n) => n.alerts@,
        None => Seq::empty(),
    })
    &&& r.hardware_class == Some(host.cfg.hardware)
    &&& r.metrale_repo matches Some(repo) && is_repo(
        host.cfg.metrale_repo@,
        host.cfg.allowed_remote@,
        f.repo,
        repo,
    )
    &&& r.metrale_home == Some(host.cfg.metrale_home)
    &&& match f.key_document {
        Some(d) => match ed25519_public_of(d@) {
            Some(key) => r.signer_fp matches Some(name) && name@ == fingerprint(key) && (
            r.signer_pubkey_hex matches Some(hex) && hex@ == to_hex(key)),
            None => r.signer_fp is None && r.signer_pubkey_hex is None,
        },
        None => r.signer_fp is None && r.signer_pubkey_hex is None,
    }
    &&& r.recipes_synced == f.recipes_synced
    &&& r.built_shas@ == arranged::<Provenance, NewestBuild>(f.builds@)
    &&& r.busy == (f.busy@.len() > 0)
    &&& crate::bench::job::opt_view(r.busy_reason) == (if f.busy@.len() > 0 {
        Some(text::joined(text::views(f.busy@), "; "@))
    } else {
        None
    })
    &&& match (host.running, f.running) {
        (Some(_), Some(job)) => r.running_job matches Some(s) && s == summary_of(job),
        _ => r.running_job is None,
    }
    &&& r.queued == waiting(f.jobs)
    &&& r.queue_depth == host.cfg.queue_depth
    &&& r.disk_free_bytes == Metric::of(f.disk_free_bytes)
    &&& r.min_free_disk_bytes == host.cfg.min_free_disk_bytes
    &&& r.min_free_fraction == f.min_free_fraction
    &&& r.host_free_fraction == Metric::of(f.free_fraction)
    &&& r.max_run_s == host.cfg.max_run_s
}

/// How many jobs wait; none where they cannot be listed.
pub open spec fn waiting(jobs: Result<Vec<JobRecord>, String>) -> u32 {
    match jobs {
        Ok(j) => queue_of(j@).len() as u32,
        Err(_) => 0,
    }
}

/// What is told of a job.
pub open spec fn summary_of(j: JobRecord) -> JobSummary {
    JobSummary {
        job: j.id,
        job_key: j.key,
        sha: j.spec.sha,
        gate: j.spec.gate,
        state: j.state,
        created_at_s: j.created_at_s,
        updated_at_s: j.updated_at_s,
        seq_high: j.seq_high,
        outcome: j.outcome,
    }
}

/// Assemble the report. `nodes` is the fleet as it is listed now.
pub fn node_info<F: Copy, T>(
    host: &BenchHost,
    nodes: &Vec<NodeDescriptor<F>>,
    f: NodeFacts<F, T>,
) -> (r: BenchNodeInfo<F, T>)
    ensures
        reported(*host, nodes@, f, r),
{
    let ghost row = local_row(nodes@, 0);
    let mut vitals: Option<NodeVitals<F>> = None;
    let mut alerts: Vec<String> = Vec::new();
    let mut name = text::copy("unknown");
    let mut found = false;
    let mut i: usize = 0;
    while i < nodes.len() && !found
        invariant
            i <= nodes@.len(),
            row == local_row(nodes@, 0),
            !found ==> row == local_row(nodes@, i as int) && vitals is None && alerts@
                == Seq::<String>::empty() && name@ == "unknown"@,
            found ==> row is Some && vitals == row.unwrap().vitals && alerts@
                == row.unwrap().alerts@ && name@ == row.unwrap().name@,
        decreases nodes@.len() - i, if found { 0int } else { 1int },
    {
        if nodes[i].is_local {
            vitals = nodes[i].vitals;
            alerts = copy_strings(&nodes[i].alerts);
            name = nodes[i].name.clone();
            found = true;
        }
        i += 1;
    }
    let gpu = match f.gpu {
        Some(id) => Some(gpu_info(id, vitals)),
        None => None,
    };
    let (signer_fp, signer_pubkey_hex) = signer(&f.key_document);
    let busy_reason = if f.busy.len() > 0 {
        Some(text::join(&f.busy, "; "))
    } else {
        None
    };
    let running_job = match &host.running {
        Some(_) => match &f.running {
            Some(job) => Some(job.summary()),
            None => None,
        },
        None => None,
    };
    let in_line: u32 = match f.jobs {
        Ok(jobs) => {
            let q = queued(jobs);
            #[verifier::truncate]
            (q.len() as u32)
        },
        Err(_) => 0,
    };
    BenchNodeInfo {
        node: host.local,
        name,
        agent_version: f.agent_version,
        peer_version_max: f.peer_version_max,
        bench_enabled: true,
        disabled_reason: None,
        gpu,
        thermal: Some(f.thermal),
        alerts,
        hardware_class: Some(host.cfg.hardware.clone()),
        metrale_repo: Some(
            repo_info(&host.cfg.metrale_repo, &host.cfg.allowed_remote, &f.repo),
        ),
        metrale_home: Some(host.cfg.metrale_home.clone()),
        signer_fp,
        signer_pubkey_hex,
        recipes_synced: f.recipes_synced,
        built_shas: built_shas(f.builds),
        busy: f.busy.len() > 0,
        busy_reason,
        running_job,
        queued: in_line,
        queue_depth: host.cfg.queue_depth,
        disk_free_bytes: Metric::from_option(f.disk_free_bytes),
        min_free_disk_bytes: host.cfg.min_free_disk_bytes,
        min_free_fraction: f.min_free_fraction,
        host_free_fraction: Metric::from_option(f.free_fraction),
        max_run_s: host.cfg.max_run_s,
    }
}

/// The report of a node whose bench surface is off.
pub open spec fn reported_off<F, T>(
    local: NodeId,
    name: Seq<char>,
    reason: Seq<char>,
    agent_version: Seq<char>,
    peer_version_max: u32,
    zero: F,
    r: BenchNodeInfo<F, T>,
) -> bool {
    &&& r.node == local
    &&& r.name@ == name
    &&& r.agent_version@ == agent_version
    &&& r.peer_version_max == peer_version_max
    &&& !r.bench_enabled
    &&& r.disabled_reason matches Some(why) && why@ == reason
    &&& r.gpu is None
    &&& r.thermal is None
    &&& r.alerts@.len() == 0
    &&& r.hardware_class is None
    &&& r.metrale_repo is None
    &&& r.metrale_home is None
    &&& r.signer_fp is None
    &&& r.signer_pubkey_hex is None
    &&& !r.recipes_synced
    &&& r.built_shas@.len() == 0
    &&& !r.busy
    &&& r.busy_reason is None
    &&& r.running_job is None
    &&& r.queued == 0
    &&& r.queue_depth == 0
    &&& r.disk_free_bytes == Metric::<F>::Unsupported
    &&& r.min_free_disk_bytes == 0
    &&& r.min_free_fraction == zero
    &&& r.host_free_fraction == Metric::<F>::Unsupported
    &&& r.max_run_s == 0
}

/// The report for an agent with no `bench.yaml`. `zero` is a reading of
/// nothing.
pub fn disabled<F, T>(
    local: NodeId,
    name: &str,
    reason: &str,
    agent_version: &str,
    peer_version_max: u32,
    zero: F,
) -> (r: BenchNodeInfo<F, T>)
    ensures
        reported_off(local, name@, reason@, agent_version@, peer_version_max, zero, r),
{
    BenchNodeInfo {
        node: local,
        name: text::copy(name),
        agent_version: text::copy(agent_version),
        peer_version_max,
        bench_enabled: false,
        disabled_reason: Some(text::copy(reason)),
        gpu: None,
        thermal: None,
        alerts: Vec::new(),
        hardware_class: None,
        metrale_repo: None,
        metrale_home: None,
        signer_fp: None,
        signer_pubkey_hex: None,
        recipes_synced: false,
        built_shas: Vec::new(),
        busy: false,
        busy_reason: None,
        running_job: None,
        queued: 0,
        queue_depth: 0,
        disk_free_bytes: Metric::Unsupported,
        min_free_disk_bytes: 0,
        min_free_fraction: zero,
        host_free_fraction: Metric::Unsupported,
        max_run_s: 0,
    }
}

/// Law: a report says what the node has. Its name and alerts are those of the
/// row that is this machine's own; it is busy exactly where something stands
/// against a run, and says what; it counts the queued jobs, lists the builds
/// with the newest first, and names the running job only where one runs.
pub proof fn law_a_report_says_what_the_node_has<F: Copy, T>(
    host: BenchHost,
    nodes: Seq<NodeDescriptor<F>>,
    f: NodeFacts<F, T>,
    r: BenchNodeInfo<F, T>,
    i: int,
)
    requires
        reported(host, nodes, f, r),
        0 <= i < nodes.len(),
        nodes[i].is_local,
        forall|j: int| 0 <= j < i ==> !(#[trigger] nodes[j]).is_local,
    ensures
        r.node == host.local && r.bench_enabled && r.disabled_reason is None,
        r.name@ == nodes[i].name@,
        r.alerts@ == nodes[i].alerts@,
        r.gpu is Some <==> f.gpu is Some,
        r.gpu matches Some(g) ==> (nodes[i].vitals matches Some(v) ==> g.temperature_c
            == v.temperature_c && g.sm_clock_mhz == v.sm_clock_mhz && g.memory_total_bytes
            == v.memory_total_bytes && g.memory_used_frac == v.memory_used_frac
            && g.sm_clock_healthy_mhz == v.sm_clock_healthy_mhz),
        r.gpu matches Some(g) ==> (nodes[i].vitals is None ==> g.temperature_c
            == Metric::<F>::Unsupported && g.memory_used_frac == Metric::<F>::Unsupported
            && g.sm_clock_healthy_mhz is None),
        r.gpu matches Some(g) ==> g.name == f.gpu.unwrap().name && g.count == f.gpu.unwrap().count,
        r.busy <==> f.busy@.len() > 0,
        r.busy_reason is Some <==> r.busy,
        f.busy@.len() == 1 ==> r.busy_reason.unwrap()@ == f.busy@[0]@,
        f.jobs matches Ok(jobs) ==> (queued_now(jobs@) <= u32::MAX ==> r.queued == queued_now(
            jobs@,
        )),
        f.jobs is Err ==> r.queued == 0,
        r.built_shas@.to_multiset() == f.builds@.to_multiset(),
        forall|a: int, b: int|
            0 <= a < b < r.built_shas@.len() ==> (#[trigger] r.built_shas@[a]).built_at_s >= (
            #[trigger] r.built_shas@[b]).built_at_s,
        r.running_job is Some <==> host.running is Some && f.running is Some,
        r.running_job matches Some(s) ==> s.job == f.running.unwrap().id && s.state
            == f.running.unwrap().state && s.job_key == f.running.unwrap().key && s.sha
            == f.running.unwrap().spec.sha && s.gate == f.running.unwrap().spec.gate && s.outcome
            == f.running.unwrap().outcome,
        r.queue_depth == host.cfg.queue_depth && r.max_run_s == host.cfg.max_run_s
            && r.min_free_disk_bytes == host.cfg.min_free_disk_bytes,
        r.hardware_class == Some(host.cfg.hardware) && r.metrale_home == Some(
            host.cfg.metrale_home,
        ),
        r.signer_fp is Some <==> r.signer_pubkey_hex is Some,
        f.key_document is None ==> r.signer_fp is None,
        f.disk_free_bytes matches Some(n) ==> r.disk_free_bytes == Metric::Reading(n),
        f.disk_free_bytes is None ==> r.disk_free_bytes is Unsupported,
        f.free_fraction matches Some(x) ==> r.host_free_fraction == Metric::Reading(x),
        r.metrale_repo matches Some(repo) ==> repo.path@ == host.cfg.metrale_repo@ && (
        repo.head_sha matches Some(h) ==> h@.len() == 40),
{
    lemma_local_row(nodes, 0, i);
    crate::order::lemma_arranged::<Provenance, NewestBuild>(f.builds@);
    assert forall|a: int, b: int| 0 <= a < b < r.built_shas@.len() implies (
    #[trigger] r.built_shas@[a]).built_at_s >= (#[trigger] r.built_shas@[b]).built_at_s by {
        assert(!NewestBuild::lt(r.built_shas@[b], r.built_shas@[a]));
    }
    if let Ok(jobs) = f.jobs {
        crate::bench::host::law_jobs_are_picked_by_state(jobs@, crate::bench::event::JobState::Queued);
    }
    if f.busy@.len() == 1 {
        assert(text::views(f.busy@)[0] == f.busy@[0]@);
    }
}

proof fn lemma_local_row<F>(nodes: Seq<NodeDescriptor<F>>, from: int, i: int)
    requires
        0 <= from <= i < nodes.len(),
        nodes[i].is_local,
        forall|j: int| from <= j < i ==> !(#[trigger] nodes[j]).is_local,
    ensures
        local_row(nodes, from) == Some(nodes[i]),
    decreases i - from,
{
    if from < i {
        assert(!nodes[from].is_local);
        lemma_local_row(nodes, from + 1, i);
    }
}

/// Law: a signer is named by the first eight bytes of the digest of its key.
pub proof fn law_a_signer_is_named_by_its_key(public: Seq<u8>)
    ensures
        fingerprint(public) == to_hex(sha256_of(public).subrange(0, 8)),
{
}

/// Law: a repository is told of as it was read: its remote without the spaces
/// around it, and its head where that reads as a commit.
pub proof fn law_a_repository_is_told_as_read(
    path: Seq<char>,
    remote: Seq<char>,
    f: RepoReadings,
    r: RepoInfo,
)
    requires
        is_repo(path, remote, f, r),
    ensures
        r.path@ == path && r.remote_name@ == remote && r.fetched_at_s == f.fetched_at_s,
        f.remote_url matches Some(u) ==> r.remote_url@ == text::trimmed(u@),
        f.remote_url is None ==> r.remote_url@.len() == 0,
        r.head_sha is Some <==> (f.head matches Some(h) && is_sha(text::trimmed(h@))),
        r.head_sha matches Some(h) ==> h@.len() == 40 && h@ == text::trimmed(f.head.unwrap()@),
{
}

} // verus!
