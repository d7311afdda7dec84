//! Jobs on disk: the record, where each part of a job lives, how ids are
//! minted, and the orders in which jobs are listed.
use crate::bench::event::{copy_outcome, JobState, Outcome};
use crate::digest::{hex_encode, sha256, sha256_of, to_hex};
use crate::keyed::{keyed, law_keyed_texts_are_a_map, say_the_same, texts};
use crate::node::NodeId;
use crate::text;
use vstd::prelude::*;

verus! {

/// What a submission asked for. Two submissions with one key must agree on
/// all of this, or the second is a conflict. The parameters are a keyed list.
#[derive(Debug, Clone, PartialEq, Eq)]
pub struct JobSpec {
    pub sha: String,
    pub gate: String,
    pub params: Vec<(String, String)>,
    pub checkpoint: Option<String>,
    pub max_run_s: u32,
}

/// The record of a job.
#[derive(Debug, Clone, PartialEq, Eq)]
pub struct JobRecord {
    pub id: String,
    pub key: String,
    pub sender: NodeId,
    pub spec: JobSpec,
    pub note: Option<String>,
    pub state: JobState,
    pub created_at_s: u64,
    pub updated_at_s: u64,
    /// The child's pid and start ticks while it runs, so a restarted agent
    /// can tell the same process from a reused pid.
    pub child_pid: Option<u32>,
    pub child_start_ticks: Option<u64>,
    /// The commit's built binary, once known.
    pub binary_sha256: Option<String>,
    /// What the benchmark's record directory held the moment before the child
    /// started: file name and last write, in nanoseconds. A keyed list.
    pub records_before: Vec<(String, u128)>,
    pub seq_high: u64,
    pub outcome: Option<Outcome>,
}

/// What a submitter is shown of a job.
#[derive(Debug, Clone, PartialEq, Eq)]
pub struct JobSummary {
    pub job: String,
    pub job_key: String,
    pub sha: String,
    pub gate: String,
    pub state: JobState,
    pub created_at_s: u64,
    pub updated_at_s: u64,
    pub seq_high: u64,
    pub outcome: Option<Outcome>,
}

/// The first ten digits of a commit id, by which people name it.
pub open spec fn brief_sha(sha: Seq<char>) -> Seq<char> {
    if sha.len() <= 10 {
        sha
    } else {
        sha.subrange(0, 10)
    }
}

/// The first ten digits of a commit id, by which people name it.
pub fn short_sha(sha: &str) -> (s: String)
    ensures
        s@ == brief_sha(sha@),
{
    let v = text::to_chars(sha);
    if v.len() <= 10 {
        text::copy(sha)
    } else {
        text::from_range(&v, 0, 10)
    }
}

impl JobRecord {
    /// Its lists are keyed.
    pub open spec fn keyed(self) -> bool {
        self.spec.keyed() && keyed(self.records_before@)
    }
}

impl JobSpec {
    /// Every parameter is named once, in ascending order.
    pub open spec fn keyed(self) -> bool {
        keyed(self.params@)
    }

    /// The same submission: every field as written.
    pub open spec fn agrees(self, other: JobSpec) -> bool {
        &&& self.sha@ == other.sha@
        &&& self.gate@ == other.gate@
        &&& same_pairs(self.params@, other.params@)
        &&& opt_view(self.checkpoint) == opt_view(other.checkpoint)
        &&& self.max_run_s == other.max_run_s
    }

    /// Whether two submissions ask for the same.
    pub fn same_as(&self, other: &JobSpec) -> (r: bool)
        ensures
            r == self.agrees(*other),
    {
        let checkpoints = match (&self.checkpoint, &other.checkpoint) {
            (Some(a), Some(b)) => text::same(a, b),
            (None, None) => true,
            _ => false,
        };
        text::same(&self.sha, &other.sha) && text::same(&self.gate, &other.gate) && pairs_equal(
            &self.params,
            &other.params,
        ) && checkpoints && self.max_run_s == other.max_run_s
    }
}

/// The characters of an optional string.
pub open spec fn opt_view(o: Option<String>) -> Option<Seq<char>> {
    match o {
        Some(s) => Some(s@),
        None => None,
    }
}

/// The same pairs of strings, character by character.
pub open spec fn same_pairs(a: Seq<(String, String)>, b: Seq<(String, String)>) -> bool {
    a.len() == b.len() && forall|i: int|
        0 <= i < a.len() ==> (#[trigger] a[i]).0@ == (#[trigger] b[i]).0@ && a[i].1@ == b[i].1@
}

fn pairs_equal(a: &Vec<(String, String)>, b: &Vec<(String, String)>) -> (r: bool)
    ensures
        r == same_pairs(a@, b@),
{
    if a.len() != b.len() {
        return false;
    }
    let mut i: usize = 0;
    while i < a.len()
        invariant
            a.len() == b.len(),
            i <= a.len(),
            forall|k: int|
                0 <= k < i ==> (#[trigger] a@[k]).0@ == (#[trigger] b@[k]).0@ && a@[k].1@
                    == b@[k].1@,
        decreases a.len() - i,
    {
        if !text::same(&a[i].0, &b[i].0) || !text::same(&a[i].1, &b[i].1) {
            assert(!(a@[i as int].0@ == b@[i as int].0@ && a@[i as int].1@ == b@[i as int].1@));
            return false;
        }
        i += 1;
    }
    true
}

impl JobRecord {
    /// What a submitter is shown of the job.
    pub fn summary(&self) -> (s: JobSummary)
        ensures
            s == (JobSummary {
                job: self.id,
                job_key: self.key,
                sha: self.spec.sha,
                gate: self.spec.gate,
                state: self.state,
                created_at_s: self.created_at_s,
                updated_at_s: self.updated_at_s,
                seq_high: self.seq_high,
                outcome: self.outcome,
            }),
    {
        JobSummary {
            job: self.id.clone(),
            job_key: self.key.clone(),
            sha: self.spec.sha.clone(),
            gate: self.spec.gate.clone(),
            state: self.state,
            created_at_s: self.created_at_s,
            updated_at_s: self.updated_at_s,
            seq_high: self.seq_high,
            outcome: copy_outcome(&self.outcome),
        }
    }
}

// ---------------------------------------------------------------------------
// Paths
// ---------------------------------------------------------------------------

/// A path below another: an absolute one stands alone, and one separator
/// parts the two.
pub open spec fn below(dir: Seq<char>, name: Seq<char>) -> Seq<char> {
    if name.len() > 0 && name[0] == '/' {
        name
    } else if dir.len() == 0 || dir.last() == '/' {
        dir + name
    } else {
        dir + "/"@ + name
    }
}

/// A path below another.
pub fn join_path(dir: &str, name: &str) -> (p: String)
    ensures
        p@ == below(dir@, name@),
{
    let n = text::to_chars(name);
    if n.len() > 0 && n[0] == '/' {
        return text::copy(name);
    }
    let d = text::to_chars(dir);
    if d.len() == 0 || d[d.len() - 1] == '/' {
        text::cat2(dir, name)
    } else {
        text::cat3(dir, "/", name)
    }
}

/// Where jobs are kept: one directory each, below one root.
#[derive(Debug, Clone)]
pub struct JobStore {
    root: String,
}

impl JobStore {
    /// The directory under which every job has its own.
    pub closed spec fn base(self) -> Seq<char> {
        self.root@
    }

    /// A store below `jobs_dir`.
    pub fn new(jobs_dir: String) -> (s: Self)
        ensures
            s.base() == jobs_dir@,
    {
        JobStore { root: jobs_dir }
    }

    /// A store with the same root.
    pub fn copy(&self) -> (s: JobStore)
        ensures
            s == *self,
    {
        JobStore { root: self.root.clone() }
    }

    /// The directory of a job.
    pub fn dir(&self, id: &str) -> (p: String)
        ensures
            p@ == below(self.base(), id@),
    {
        join_path(&self.root, id)
    }

    /// The record of a job.
    pub fn record_path(&self, id: &str) -> (p: String)
        ensures
            p@ == below(below(self.base(), id@), "job.json"@),
    {
        let d = self.dir(id);
        join_path(&d, "job.json")
    }

    /// The journal of a job.
    pub fn journal_path(&self, id: &str) -> (p: String)
        ensures
            p@ == below(below(self.base(), id@), "events.ndjson"@),
    {
        let d = self.dir(id);
        join_path(&d, "events.ndjson")
    }

    /// The child's output.
    pub fn child_log_path(&self, id: &str) -> (p: String)
        ensures
            p@ == below(below(self.base(), id@), "child.log"@),
    {
        let d = self.dir(id);
        join_path(&d, "child.log")
    }

    /// The files a job hands back.
    pub fn artifacts_dir(&self, id: &str) -> (p: String)
        ensures
            p@ == below(below(self.base(), id@), "artifacts"@),
    {
        let d = self.dir(id);
        join_path(&d, "artifacts")
    }

    /// Where the job that a key names is noted.
    pub fn key_path(&self, key: &str) -> (p: String)
        ensures
            p@ == below(below(self.base(), "by-key"@), key@),
    {
        let d = join_path(&self.root, "by-key");
        join_path(&d, key)
    }

    /// Mint an id from the clock, the key and the sender: `jb-`, the seconds,
    /// and the first eight digits of their digest. It has the shape of an id,
    /// so that a job that was created is found again.
    pub fn mint_id(now_s: u64, key: &str, sender: NodeId) -> (id: String)
        ensures
            id@ == minted(now_s, key@, sender),
            is_job_id(id@),
    {
        let mut input: Vec<u8> = le_bytes(now_s);
        append_bytes(&mut input, key);
        let hex_id = sender.to_hex();
        append_bytes(&mut input, &hex_id);
        assert(input@ =~= id_input(now_s, key@, sender));
        let digest = sha256(&input);
        let head = first_bytes(&digest, 4);
        proof {
            lemma_shape(now_s, head@);
        }
        let tail = hex_encode(&head);
        let secs = text::decimal(now_s);
        let mut s = text::cat2("jb-", &secs);
        s.append("-");
        s.append(&tail);
        s
    }

    /// Whether a job may be created: what is there already is never written
    /// over.
    pub fn may_create(&self, record: &JobRecord, present: bool) -> (r: Result<(), String>)
        ensures
            r is Ok <==> !present,
            r matches Err(why) ==> why@ == "job directory "@ + below(self.base(), record.id@)
                + " already exists"@,
    {
        if present {
            let d = self.dir(&record.id);
            Err(text::cat3("job directory ", &d, " already exists"))
        } else {
            Ok(())
        }
    }

    /// The job that the note of a key names.
    pub fn indexed(note: &str) -> (r: Result<String, String>)
        ensures
            match r {
                Ok(id) => id@ == text::trimmed(note@) && is_job_id(id@),
                Err(why) => !is_job_id(text::trimmed(note@)) && why@
                    == "the key index names a malformed job id"@,
            },
    {
        let id = text::trim(note);
        if looks_like_job_id(&id) {
            Ok(id)
        } else {
            Err(text::copy("the key index names a malformed job id"))
        }
    }

    /// Whether a job may be removed: only once nothing more will happen to
    /// it. The refusal names it.
    pub fn may_remove(record: &JobRecord) -> (r: Result<(), String>)
        ensures
            r is Ok <==> record.state.terminal(),
            r matches Err(why) ==> why@ == "refusing to remove "@ + record.id@ + " in state "@
                + state_name(record.state),
    {
        if record.state.is_terminal() {
            Ok(())
        } else {
            let mut why = text::cat2("refusing to remove ", &record.id);
            why.append(" in state ");
            why.append(name_of(record.state));
            Err(why)
        }
    }
}

/// The name of a state.
pub open spec fn state_name(s: JobState) -> Seq<char> {
    match s {
        JobState::Queued => "Queued"@,
        JobState::Preparing => "Preparing"@,
        JobState::Building => "Building"@,
        JobState::Running => "Running"@,
        JobState::Collecting => "Collecting"@,
        JobState::Done => "Done"@,
    }
}

fn name_of(s: JobState) -> (n: &'static str)
    ensures
        n@ == state_name(s),
{
    match s {
        JobState::Queued => "Queued",
        JobState::Preparing => "Preparing",
        JobState::Building => "Building",
        JobState::Running => "Running",
        JobState::Collecting => "Collecting",
        JobState::Done => "Done",
    }
}

/// The eight bytes of a number, least significant first.
pub open spec fn little_endian(n: u64) -> Seq<u8> {
    Seq::new(8, |i: int| ((n as nat / crate::node::pow256(i as nat)) % 256) as u8)
}

/// What an id is a digest of.
pub open spec fn id_input(now_s: u64, key: Seq<char>, sender: NodeId) -> Seq<u8> {
    little_endian(now_s) + vstd::utf8::encode_utf8(key) + vstd::utf8::encode_utf8(sender.hex())
}

/// The id minted from the clock, a key and a sender.
pub open spec fn minted(now_s: u64, key: Seq<char>, sender: NodeId) -> Seq<char> {
    "jb-"@ + text::dec(now_s as nat) + "-"@ + to_hex(
        sha256_of(id_input(now_s, key, sender)).subrange(0, 4),
    )
}

/// One of the digits `0` to `9` and `a` to `f`.
pub open spec fn is_hex_lower(c: char) -> bool {
    ('0' <= c && c <= '9') || ('a' <= c && c <= 'f')
}

/// The shape of an id: `jb-`, seconds, `-` and eight digits.
pub open spec fn is_job_id(s: Seq<char>) -> bool {
    &&& text::begins(s, "jb-"@)
    &&& text::halves(s.subrange("jb-"@.len() as int, s.len() as int), '-') matches Some(p)
        && p.0.len() > 0 && text::all_digits(p.0) && p.1.len() == 8 && forall|i: int|
        0 <= i < 8 ==> is_hex_lower(#[trigger] p.1[i])
}

/// Whether a text has the shape of an id. Nothing else is taken for the name
/// of a job's directory.
#[verifier::loop_isolation(false)]
pub fn looks_like_job_id(s: &str) -> (r: bool)
    ensures
        r == is_job_id(s@),
{
    let rest = match text::strip_prefix(s, "jb-") {
        Some(rest) => rest,
        None => return false,
    };
    let (secs, tail) = match text::split_once(&rest, '-') {
        Some(p) => p,
        None => return false,
    };
    let a = text::to_chars(&secs);
    let b = text::to_chars(&tail);
    if a.len() == 0 || b.len() != 8 {
        return false;
    }
    let mut i: usize = 0;
    while i < a.len()
        invariant
            i <= a@.len(),
            a@ == secs@,
            forall|k: int| 0 <= k < i ==> text::is_digit(#[trigger] a@[k]),
        decreases a@.len() - i,
    {
        if !('0' <= a[i] && a[i] <= '9') {
            assert(!text::is_digit(secs@[i as int]));
            return false;
        }
        i += 1;
    }
    let mut j: usize = 0;
    while j < b.len()
        invariant
            j <= b@.len() == 8,
            b@ == tail@,
            forall|k: int| 0 <= k < j ==> is_hex_lower(#[trigger] b@[k]),
        decreases b@.len() - j,
    {
        let c = b[j];
        if !(('0' <= c && c <= '9') || ('a' <= c && c <= 'f')) {
            assert(!is_hex_lower(tail@[j as int]));
            return false;
        }
        j += 1;
    }
    true
}

proof fn lemma_shape(now_s: u64, head: Seq<u8>)
    requires
        head.len() == 4,
    ensures
        is_job_id("jb-"@ + text::dec(now_s as nat) + "-"@ + to_hex(head)),
{
    let d = text::dec(now_s as nat);
    let h = to_hex(head);
    let s = "jb-"@ + d + "-"@ + h;
    reveal_strlit("jb-");
    reveal_strlit("-");
    text::lemma_dec(now_s as nat);
    assert(s.subrange(0, 3) =~= "jb-"@);
    let rest = s.subrange(3, s.len() as int);
    assert(rest =~= d + "-"@ + h);
    text::lemma_find(rest, '-', 0);
    let at = text::find(rest, '-', 0);
    assert(rest[d.len() as int] == '-');
    assert forall|k: int| 0 <= k < d.len() implies rest[k] != '-' by {
        assert(text::is_digit(d[k]));
    }
    assert(at == d.len());
    assert(rest.subrange(0, at) =~= d);
    assert(rest.subrange(at + 1, rest.len() as int) =~= h);
    assert forall|i: int| 0 <= i < 8 implies is_hex_lower(#[trigger] h[i]) by {
        let b = head[i / 2];
        assert(b / 16 < 16 && b % 16 < 16);
    }
}

fn le_bytes(n: u64) -> (v: Vec<u8>)
    ensures
        v@ == little_endian(n),
{
    let mut v: Vec<u8> = Vec::new();
    let mut rest: u64 = n;
    let mut i: u64 = 0;
    assert(crate::node::pow256(0) == 1);
    assert(n as nat / 1 == n as nat);
    while i < 8
        invariant
            i <= 8,
            rest == n as nat / crate::node::pow256(i as nat),
            crate::node::pow256(i as nat) > 0,
            v@ == little_endian(n).subrange(0, i as int),
        decreases 8 - i,
    {
        v.push((rest % 256) as u8);
        proof {
            let p = crate::node::pow256(i as nat);
            assert(crate::node::pow256((i + 1) as nat) == 256 * p);
            assert((n as nat / p) / 256 == n as nat / (256 * p)) by {
                vstd::arithmetic::div_mod::lemma_div_denominator(n as int, p as int, 256);
                assert(p * 256 == 256 * p) by (nonlinear_arith);
            }
            assert(little_endian(n)[i as int] == (rest % 256) as u8);
        }
        rest = rest / 256;
        i += 1;
        assert(v@ =~= little_endian(n).subrange(0, i as int));
    }
    assert(little_endian(n).subrange(0, 8) =~= little_endian(n));
    v
}

fn append_bytes(v: &mut Vec<u8>, s: &str)
    ensures
        final(v)@ == old(v)@ + vstd::utf8::encode_utf8(s@),
{
    let b = s.as_bytes();
    let mut i: usize = 0;
    assert(v@ + b@.subrange(0, 0) =~= v@);
    while i < b.len()
        invariant
            i <= b.len(),
            b@ == vstd::utf8::encode_utf8(s@),
            v@ == old(v)@ + b@.subrange(0, i as int),
        decreases b.len() - i,
    {
        v.push(b[i]);
        i += 1;
        assert(v@ =~= old(v)@ + b@.subrange(0, i as int));
    }
    assert(b@.subrange(0, b@.len() as int) =~= b@);
}

/// The first `n` bytes.
pub fn first_bytes(v: &Vec<u8>, n: usize) -> (r: Vec<u8>)
    requires
        n <= v.len(),
    ensures
        r@ == v@.subrange(0, n as int),
{
    let mut out: Vec<u8> = Vec::new();
    let mut i: usize = 0;
    while i < n
        invariant
            i <= n <= v.len(),
            out@ == v@.subrange(0, i as int),
        decreases n - i,
    {
        out.push(v[i]);
        i += 1;
        assert(out@ =~= v@.subrange(0, i as int));
    }
    out
}

/// The seconds since the epoch, of a reading of the clock in milliseconds. A
/// clock that reads before the epoch has no reading, and counts as zero.
pub fn now_s(since_epoch_ms: Option<u64>) -> (s: u64)
    ensures
        s == (match since_epoch_ms {
            Some(ms) => ms / 1000,
            None => 0,
        }),
{
    match since_epoch_ms {
        Some(ms) => ms / 1000,
        None => 0,
    }
}

/// Law: two submissions agree on their parameters exactly when they give every
/// parameter the same value.
pub proof fn law_parameters_agree_by_name(a: JobSpec, b: JobSpec)
    requires
        a.keyed(),
        b.keyed(),
    ensures
        a.agrees(b) <==> {
            &&& a.sha@ == b.sha@
            &&& a.gate@ == b.gate@
            &&& say_the_same(texts(a.params@), texts(b.params@))
            &&& opt_view(a.checkpoint) == opt_view(b.checkpoint)
            &&& a.max_run_s == b.max_run_s
        },
{
    law_keyed_texts_are_a_map(a.params@, b.params@);
}

/// Law: a path below a directory is the directory, one separator, and the
/// name; a name that is a path of its own stands for itself.
pub proof fn law_a_path_is_below_its_directory(dir: Seq<char>, name: Seq<char>)
    ensures
        name.len() > 0 && name[0] == '/' ==> below(dir, name) == name,
        dir.len() > 0 && dir.last() != '/' && (name.len() == 0 || name[0] != '/') ==> below(
            dir,
            name,
        ) == dir.push('/') + name,
        dir.len() > 0 && dir.last() == '/' && (name.len() == 0 || name[0] != '/') ==> below(
            dir,
            name,
        ) == dir + name,
{
    reveal_strlit("/");
    assert(dir + "/"@ + name =~= dir.push('/') + name);
}

/// Law: a job's id is a name and never a path: nothing in it leads elsewhere.
pub proof fn law_an_id_is_no_path(id: Seq<char>)
    requires
        is_job_id(id),
    ensures
        id.len() > 0,
        !id.contains('/'),
        !id.contains('.'),
        id[0] == 'j',
{
    reveal_strlit("jb-");
    let rest = id.subrange(3, id.len() as int);
    let p = text::halves(rest, '-').unwrap();
    text::law_halves_are_around_the_first(rest, '-');
    text::law_beginnings_and_ends(id, "jb-"@, Seq::empty());
    assert forall|i: int| 0 <= i < id.len() implies #[trigger] id[i] != '/' && id[i] != '.' by {
        if i < 3 {
            assert(id[i] == "jb-"@[i]);
        } else {
            assert(id[i] == rest[i - 3]);
            if i - 3 < p.0.len() {
                assert(rest[i - 3] == p.0[i - 3]);
                assert(text::is_digit(p.0[i - 3]));
            } else if i - 3 > p.0.len() {
                assert(rest[i - 3] == p.1[i - 3 - p.0.len() - 1]);
                assert(is_hex_lower(p.1[i - 3 - p.0.len() - 1]));
            }
        }
    }
    assert(id[0] == "jb-"@[0]);
}

/// Law: a commit is named by its first ten digits, and by all of them where
/// there are fewer.
pub proof fn law_a_commit_is_named_by_its_beginning(sha: Seq<char>)
    ensures
        text::begins(sha, brief_sha(sha)),
        brief_sha(sha).len() <= 10,
        brief_sha(sha).len() == 10 || brief_sha(sha) == sha,
{
    assert(sha.subrange(0, sha.len() as int) =~= sha);
}

/// Law: two submissions agree on everything that was asked for, or not at all.
pub proof fn law_submissions_agree_on_everything(a: JobSpec, b: JobSpec, i: int)
    requires
        a.agrees(b),
    ensures
        b.agrees(a),
        a.sha@ == b.sha@ && a.gate@ == b.gate@ && a.max_run_s == b.max_run_s,
        a.checkpoint is Some <==> b.checkpoint is Some,
        a.checkpoint matches Some(c) ==> b.checkpoint.unwrap()@ == c@,
        a.params@.len() == b.params@.len(),
        0 <= i < a.params@.len() ==> a.params@[i].0@ == b.params@[i].0@ && a.params@[i].1@
            == b.params@[i].1@,
{
}

/// Law: an identifier is made of the time, and of a digest over the time, the
/// key and the sender, in this order.
pub proof fn law_an_id_is_made_of_time_key_and_sender(now_s: u64, key: Seq<char>, sender: NodeId)
    ensures
        ({
            let bytes = little_endian(now_s) + vstd::utf8::encode_utf8(key)
                + vstd::utf8::encode_utf8(sender.hex());
            minted(now_s, key, sender) == "jb-"@ + text::dec(now_s as nat) + "-"@ + to_hex(
                sha256_of(bytes).subrange(0, 4),
            )
        }),
        little_endian(now_s).len() == 8,
        little_endian(now_s)[0] == now_s % 256,
        little_endian(now_s)[1] == (now_s / 256) % 256,
{
    reveal_with_fuel(crate::node::pow256, 3);
}

} // verus!
