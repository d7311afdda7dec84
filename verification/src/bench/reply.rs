//! What bench requests are answered with.
use crate::bench::event::{ArtifactMeta, JobState};
use crate::bench::job::JobSummary;
use crate::node::NodeId;
use vstd::prelude::*;

verus! {

/// The longest note kept with a job, in characters.
pub const MAX_NOTE: usize = 256;

/// The most bytes of an artifact in one answer.
pub const MAX_CHUNK: u32 = 262_144;

/// The longest log line kept, in bytes.
pub const MAX_LOG_LINE_BYTES: usize = 2048;

/// The most log lines in one event.
pub const MAX_LOG_LINES_PER_EVENT: usize = 64;

/// Why a request was not carried out.
#[derive(Debug, Clone, PartialEq, Eq)]
pub enum BenchRefusal {
    NotGranted { command: String },
    NotConfigured { what: String, fix: String },
    RateLimited { retry_after_s: u32 },
    BadParams { errors: Vec<String> },
    KeyConflict { job: String },
    QueueFull { depth: u32, retry_after_s: u32 },
    DiskLow { free_bytes: u64, required_bytes: u64 },
    UnknownJob { job: String },
    NoSuchArtifact { name: String },
}

/// The answer to a request.
#[derive(Debug, Clone, PartialEq, Eq)]
pub enum BenchRep {
    Accepted { job: String, existing: bool, state: JobState, position: u32 },
    Refused { by: NodeId, refusal: BenchRefusal },
    Status { jobs: Vec<JobSummary> },
    Cancelled { job: String, state: JobState },
    Artifacts { job: String, items: Vec<ArtifactMeta> },
    Chunk { job: String, name: String, offset: u64, data_b64: String, eof: bool },
}

/// The answer is a refusal of something that is not set up, in these words.
pub open spec fn not_configured(r: BenchRefusal, what: Seq<char>, fix: Seq<char>) -> bool {
    r matches BenchRefusal::NotConfigured { what: w, fix: f } && w@ == what && f@ == fix
}

} // verus!
