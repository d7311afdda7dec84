//! Which records did THIS job write?
//!
//! The answer is a difference against a snapshot taken immediately before
//! the child starts — never "everything modified since a wall-clock
//! instant": two jobs on one node may write within the same second.
use crate::bench::event::{ArtifactKind, ArtifactMeta};
use crate::keyed::keyed;
use crate::order::{arrange, arranged, in_order, lemma_arranged, lemma_arranged_contains, lemma_slot, placed, slot, Order};
use crate::text;
use vstd::prelude::*;

verus! {

/// Files by name.
pub struct ByName;

impl Order<(String, u128)> for ByName {
    open spec fn lt(a: (String, u128), b: (String, u128)) -> bool {
        text::precedes(a.0@, b.0@)
    }

    fn less(a: &(String, u128), b: &(String, u128)) -> (r: bool) {
        text::before(&a.0, &b.0)
    }

    proof fn asymmetric(a: (String, u128), b: (String, u128)) {
        text::lemma_precedes_total(a.0@, b.0@);
    }

    proof fn chained(a: (String, u128), b: (String, u128), c: (String, u128)) {
        text::lemma_not_precedes_transitive(a.0@, b.0@, c.0@);
    }
}

/// Whether a file is a record or the signature of one.
pub open spec fn is_record(name: Seq<char>) -> bool {
    text::ends(name, ".json"@) || text::ends(name, ".json.sig"@)
}

/// The record files of a directory, in the order given.
pub open spec fn records_in(entries: Seq<(String, u128)>) -> Seq<(String, u128)>
    decreases entries.len(),
{
    if entries.len() == 0 {
        Seq::empty()
    } else if is_record(entries.last().0@) {
        records_in(entries.drop_last()).push(entries.last())
    } else {
        records_in(entries.drop_last())
    }
}

/// The record files of a gate's directory by name, each with the nanosecond
/// it was last written. Nanoseconds rather than seconds because two writes
/// inside one second are exactly the case this exists to tell apart.
pub fn state(entries: Vec<(String, u128)>) -> (r: Vec<(String, u128)>)
    ensures
        r@ == arranged::<(String, u128), ByName>(records_in(entries@)),
        named_apart(entries@) ==> keyed(r@),
{
    let ghost all = entries@;
    let mut rest = entries;
    let mut out: Vec<(String, u128)> = Vec::new();
    let ghost mut n: int = 0;
    assert(all.subrange(0, 0) =~= Seq::empty());
    assert(rest@ =~= all.subrange(0, all.len() as int));
    while rest.len() > 0
        invariant
            0 <= n <= all.len(),
            rest@ == all.subrange(n, all.len() as int),
            out@ == records_in(all.subrange(0, n)),
        decreases rest.len(),
    {
        let x = rest.remove(0);
        let ghost next = all.subrange(0, n + 1);
        assert(next.drop_last() =~= all.subrange(0, n));
        assert(next.last() == x);
        assert(rest@ =~= all.subrange(n + 1, all.len() as int));
        if text::ends_with(&x.0, ".json") || text::ends_with(&x.0, ".json.sig") {
            out.push(x);
        }
        proof {
            n = n + 1;
        }
    }
    assert(all.subrange(0, n) =~= all);
    proof {
        if named_apart(all) {
            law_a_snapshot_is_keyed(all);
        }
    }
    arrange::<(String, u128), ByName>(out)
}

/// When a snapshot says a file was written.
pub open spec fn written_at(snapshot: Seq<(String, u128)>, name: Seq<char>, from: int) -> Option<
    u128,
>
    decreases snapshot.len() - from,
{
    if from < 0 || from >= snapshot.len() {
        None
    } else if snapshot[from].0@ == name {
        Some(snapshot[from].1)
    } else {
        written_at(snapshot, name, from + 1)
    }
}

fn lookup(snapshot: &Vec<(String, u128)>, name: &str) -> (r: Option<u128>)
    ensures
        r == written_at(snapshot@, name@, 0),
{
    let mut i: usize = 0;
    while i < snapshot.len()
        invariant
            i <= snapshot.len(),
            written_at(snapshot@, name@, 0) == written_at(snapshot@, name@, i as int),
        decreases snapshot.len() - i,
    {
        if text::same(&snapshot[i].0, name) {
            return Some(snapshot[i].1);
        }
        i += 1;
    }
    None
}

/// A record to be handed back.
#[derive(Debug, Clone, PartialEq, Eq)]
pub struct Found {
    pub name: String,
    pub relative_path: String,
    pub kind: ArtifactKind,
}

/// The job wrote the file: it was absent before, or written again since.
pub open spec fn is_new(before: Seq<(String, u128)>, file: (String, u128)) -> bool {
    written_at(before, file.0@, 0) != Some(file.1)
}

/// What a record's name says it is.
pub open spec fn kind_of(name: Seq<char>) -> Option<ArtifactKind> {
    if text::ends(name, ".json.sig"@) {
        Some(ArtifactKind::Signature)
    } else if text::ends(name, ".json"@) {
        Some(ArtifactKind::Record)
    } else {
        None
    }
}

/// The files among the first `n` that the job wrote.
pub open spec fn wrote(
    before: Seq<(String, u128)>,
    now: Seq<(String, u128)>,
    n: int,
) -> Seq<(String, u128)>
    decreases n,
{
    if n <= 0 {
        Seq::empty()
    } else if is_new(before, now[n - 1]) && kind_of(now[n - 1].0@) is Some {
        wrote(before, now, n - 1).push(now[n - 1])
    } else {
        wrote(before, now, n - 1)
    }
}

/// A file as it is handed back.
pub open spec fn found_as(f: Found, file: (String, u128), gate: Seq<char>) -> bool {
    &&& f.name == file.0
    &&& f.relative_path@ == ".benchmarks/"@ + gate + "/"@ + file.0@
    &&& Some(f.kind) == kind_of(file.0@)
}

/// The records this job wrote: those absent from `before`, and those written
/// again since it was taken. A file the previous job left behind has the
/// time it had in the snapshot, so it is not this job's, however close the
/// two ran.
pub fn collect(gate: &str, before: &Vec<(String, u128)>, now: &Vec<(String, u128)>) -> (r: Vec<
    Found,
>)
    ensures
        r@.len() == wrote(before@, now@, now@.len() as int).len(),
        forall|i: int|
            0 <= i < r@.len() ==> found_as(
                #[trigger] r@[i],
                wrote(before@, now@, now@.len() as int)[i],
                gate@,
            ),
{
    let mut out: Vec<Found> = Vec::new();
    let mut i: usize = 0;
    while i < now.len()
        invariant
            i <= now.len(),
            out@.len() == wrote(before@, now@, i as int).len(),
            forall|k: int|
                0 <= k < out@.len() ==> found_as(
                    #[trigger] out@[k],
                    wrote(before@, now@, i as int)[k],
                    gate@,
                ),
        decreases now.len() - i,
    {
        let ghost was = wrote(before@, now@, i as int);
        let seen = lookup(before, &now[i].0);
        let fresh = match seen {
            Some(t) => t != now[i].1,
            None => true,
        };
        if fresh {
            let signature = text::ends_with(&now[i].0, ".json.sig");
            if signature || text::ends_with(&now[i].0, ".json") {
                let mut relative_path = text::cat2(".benchmarks/", gate);
                relative_path.append("/");
                relative_path.append(&now[i].0);
                let kind = if signature {
                    ArtifactKind::Signature
                } else {
                    ArtifactKind::Record
                };
                out.push(Found { name: now[i].0.clone(), relative_path, kind });
                assert(wrote(before@, now@, i + 1) == was.push(now@[i as int]));
            }
        }
        i += 1;
    }
    out
}

impl Found {
    /// The artifact, once its copy has been digested.
    pub fn meta(self, sha256: String, bytes: u64) -> (m: ArtifactMeta)
        ensures
            m == (ArtifactMeta {
                name: self.name,
                relative_path: self.relative_path,
                bytes,
                sha256,
                kind: self.kind,
            }),
    {
        ArtifactMeta {
            name: self.name,
            relative_path: self.relative_path,
            bytes,
            sha256,
            kind: self.kind,
        }
    }
}

/// Law: a job is handed exactly what it wrote. Of the record files there
/// are now, one is collected when, and only when, the snapshot does not have
/// it with the time it has.
pub proof fn law_a_job_collects_its_own_records(
    before: Seq<(String, u128)>,
    now: Seq<(String, u128)>,
    file: (String, u128),
)
    requires
        now.contains(file),
        is_record(file.0@),
    ensures
        wrote(before, now, now.len() as int).contains(file) <==> is_new(before, file),
{
    let i = choose|i: int| 0 <= i < now.len() && now[i] == file;
    lemma_wrote(before, now, now.len() as int, file);
}

proof fn lemma_wrote(
    before: Seq<(String, u128)>,
    now: Seq<(String, u128)>,
    n: int,
    file: (String, u128),
)
    requires
        0 <= n <= now.len(),
    ensures
        wrote(before, now, n).contains(file) <==> (now.subrange(0, n).contains(file) && is_new(
            before,
            file,
        ) && kind_of(file.0@) is Some),
        n == now.len() ==> (now.contains(file) <==> now.subrange(0, n).contains(file)),
    decreases n,
{
    if n == now.len() {
        assert(now.subrange(0, n) =~= now);
    }
    if n > 0 {
        lemma_wrote(before, now, n - 1, file);
        let head = now.subrange(0, n - 1);
        let whole = now.subrange(0, n);
        assert(whole =~= head.push(now[n - 1]));
        lemma_push_contains(head, now[n - 1], file);
        lemma_push_contains(wrote(before, now, n - 1), now[n - 1], file);
    }
}

proof fn lemma_push_contains<A>(s: Seq<A>, x: A, y: A)
    ensures
        s.push(x).contains(y) <==> s.contains(y) || x == y,
{
    if s.contains(y) {
        let i = choose|i: int| 0 <= i < s.len() && s[i] == y;
        assert(s.push(x)[i] == y);
    }
    if x == y {
        assert(s.push(x)[s.len() as int] == y);
    }
    if s.push(x).contains(y) {
        let i = choose|i: int| 0 <= i < s.push(x).len() && s.push(x)[i] == y;
        if i < s.len() {
            assert(s[i] == y);
        }
    }
}

/// Law: a job that wrote no record collects nothing.
pub proof fn law_nothing_written_nothing_collected(files: Seq<(String, u128)>, n: int)
    requires
        keyed(files),
        0 <= n <= files.len(),
    ensures
        wrote(files, files, n).len() == 0,
    decreases n,
{
    if n > 0 {
        law_nothing_written_nothing_collected(files, n - 1);
        lemma_written_at(files, n - 1, 0);
    }
}

proof fn lemma_written_at(files: Seq<(String, u128)>, i: int, from: int)
    requires
        keyed(files),
        0 <= from <= i < files.len(),
    ensures
        written_at(files, files[i].0@, from) == Some(files[i].1),
    decreases files.len() - from,
{
    if from < i {
        text::lemma_precedes_irreflexive(files[i].0@);
        assert(text::precedes(files[from].0@, files[i].0@));
        lemma_written_at(files, i, from + 1);
    }
}

/// Law: a snapshot lists the record files and nothing else, by name.
pub proof fn law_a_snapshot_holds_the_records(entries: Seq<(String, u128)>, file: (String, u128))
    ensures
        in_order::<(String, u128), ByName>(arranged::<(String, u128), ByName>(records_in(entries))),
        arranged::<(String, u128), ByName>(records_in(entries)).contains(file) <==> entries.contains(
            file,
        ) && is_record(file.0@),
{
    lemma_arranged::<(String, u128), ByName>(records_in(entries));
    lemma_arranged_contains::<(String, u128), ByName>(records_in(entries), file);
    lemma_records_in(entries, file);
}

proof fn lemma_records_in(entries: Seq<(String, u128)>, file: (String, u128))
    ensures
        records_in(entries).contains(file) <==> entries.contains(file) && is_record(file.0@),
    decreases entries.len(),
{
    if entries.len() > 0 {
        lemma_records_in(entries.drop_last(), file);
        lemma_push_contains(entries.drop_last(), entries.last(), file);
        lemma_push_contains(records_in(entries.drop_last()), entries.last(), file);
        assert(entries.drop_last().push(entries.last()) =~= entries);
    }
}

/// No two files have one name.
pub open spec fn named_apart(files: Seq<(String, u128)>) -> bool {
    forall|i: int, j: int|
        0 <= i < j < files.len() ==> (#[trigger] files[i]).0@ != (#[trigger] files[j]).0@
}

/// Law: a snapshot is a keyed list, as no directory holds two files of one
/// name.
pub proof fn law_a_snapshot_is_keyed(entries: Seq<(String, u128)>)
    requires
        named_apart(entries),
    ensures
        keyed(arranged::<(String, u128), ByName>(records_in(entries))),
{
    let found = records_in(entries);
    let t = arranged::<(String, u128), ByName>(found);
    lemma_found_apart(entries);
    lemma_arranged_apart(found);
    lemma_arranged::<(String, u128), ByName>(found);
    assert forall|i: int, j: int| 0 <= i < j < t.len() implies text::precedes(
        (#[trigger] t[i]).0@,
        (#[trigger] t[j]).0@,
    ) by {
        assert(!ByName::lt(t[j], t[i]));
        text::lemma_precedes_total(t[i].0@, t[j].0@);
    }
}

proof fn lemma_found_apart(entries: Seq<(String, u128)>)
    requires
        named_apart(entries),
    ensures
        named_apart(records_in(entries)),
    decreases entries.len(),
{
    if entries.len() > 0 {
        let front = entries.drop_last();
        lemma_found_apart(front);
        let t = records_in(entries);
        let u = records_in(front);
        assert forall|i: int, j: int| 0 <= i < j < t.len() implies (#[trigger] t[i]).0@ != (
        #[trigger] t[j]).0@ by {
            assert(u[i] == t[i]);
            if j < u.len() {
                assert(u[j] == t[j]);
            } else {
                lemma_records_in(front, u[i]);
                assert(u.contains(u[i]));
                let k = choose|k: int| 0 <= k < front.len() && front[k] == u[i];
                assert(entries[k] == u[i] && entries[entries.len() - 1] == t[j]);
            }
        }
    }
}

proof fn lemma_arranged_apart(s: Seq<(String, u128)>)
    requires
        named_apart(s),
    ensures
        named_apart(arranged::<(String, u128), ByName>(s)),
    decreases s.len(),
{
    if s.len() > 0 {
        let front = s.drop_last();
        let x = s.last();
        lemma_arranged_apart(front);
        let u = arranged::<(String, u128), ByName>(front);
        let t = arranged::<(String, u128), ByName>(s);
        let p = slot::<(String, u128), ByName>(u, x, 0);
        lemma_slot::<(String, u128), ByName>(u, x, 0);
        assert(t == placed::<(String, u128), ByName>(u, x));
        assert forall|k: int| 0 <= k < u.len() implies (#[trigger] u[k]).0@ != x.0@ by {
            lemma_arranged_contains::<(String, u128), ByName>(front, u[k]);
            assert(u.contains(u[k]));
            let m = choose|m: int| 0 <= m < front.len() && front[m] == u[k];
            assert(s[m] == u[k] && s[s.len() - 1] == x);
        }
        assert forall|i: int, j: int| 0 <= i < j < t.len() implies (#[trigger] t[i]).0@ != (
        #[trigger] t[j]).0@ by {
            let a = if i > p {
                i - 1
            } else {
                i
            };
            let b = if j > p {
                j - 1
            } else {
                j
            };
            if i != p {
                assert(t[i] == u[a]);
            }
            if j != p {
                assert(t[j] == u[b]);
            }
        }
    }
}

/// Some entry of the snapshot has this name and this time.
pub open spec fn holds_as_it_is(before: Seq<(String, u128)>, file: (String, u128)) -> bool {
    exists|i: int|
        0 <= i < before.len() && (#[trigger] before[i]).0@ == file.0@ && before[i].1 == file.1
}

/// A record, or the signature of one, that the snapshot does not hold as it is.
pub open spec fn belongs_to_the_job(before: Seq<(String, u128)>) -> spec_fn((String, u128)) -> bool {
    |f: (String, u128)|
        !holds_as_it_is(before, f) && (text::ends(f.0@, ".json"@) || text::ends(
            f.0@,
            ".json.sig"@,
        ))
}

/// Law: what a job collects is, in their order, every record and signature
/// that is there now and that the snapshot does not hold with that time. Each
/// is known by its own name and path, a signature as one and a record as one.
pub proof fn law_a_job_collects_all_that_it_wrote(
    before: Seq<(String, u128)>,
    now: Seq<(String, u128)>,
    f: Found,
    file: (String, u128),
    gate: Seq<char>,
)
    requires
        keyed(before),
    ensures
        wrote(before, now, now.len() as int) == now.filter(belongs_to_the_job(before)),
        found_as(f, file, gate) ==> f.name == file.0 && f.relative_path@ == ".benchmarks/"@ + gate
            + "/"@ + file.0@ && (f.kind is Signature <==> text::ends(file.0@, ".json.sig"@)) && (
        f.kind is Record || f.kind is Signature),
{
    assert(now.subrange(0, now.len() as int) =~= now);
    lemma_collects(before, now, now.len() as int);
}

proof fn lemma_collects(before: Seq<(String, u128)>, now: Seq<(String, u128)>, n: int)
    requires
        keyed(before),
        0 <= n <= now.len(),
    ensures
        wrote(before, now, n) == now.subrange(0, n).filter(belongs_to_the_job(before)),
    decreases n,
{
    reveal(Seq::filter);
    let head = now.subrange(0, n);
    if n > 0 {
        lemma_collects(before, now, n - 1);
        assert(head.drop_last() =~= now.subrange(0, n - 1));
        let f = now[n - 1];
        lemma_written(before, f.0@, 0);
        assert(is_new(before, f) == !holds_as_it_is(before, f)) by {
            if holds_as_it_is(before, f) {
                let i = choose|i: int|
                    0 <= i < before.len() && (#[trigger] before[i]).0@ == f.0@ && before[i].1 == f.1;
                lemma_written_at(before, i, 0);
            }
        }
    } else {
        assert(head =~= Seq::empty());
    }
}

proof fn lemma_written(snapshot: Seq<(String, u128)>, name: Seq<char>, from: int)
    requires
        0 <= from <= snapshot.len(),
    ensures
        written_at(snapshot, name, from) matches Some(t) ==> exists|i: int|
            0 <= i < snapshot.len() && (#[trigger] snapshot[i]).0@ == name && snapshot[i].1 == t,
    decreases snapshot.len() - from,
{
    if from < snapshot.len() {
        if snapshot[from].0@ == name {
            assert(snapshot[from].1 == snapshot[from].1);
        } else {
            lemma_written(snapshot, name, from + 1);
        }
    }
}

/// Law: a snapshot takes in every record and every signature, known by how
/// their names end, and nothing else.
pub proof fn law_records_and_signatures_are_taken_in(base: Seq<char>, name: Seq<char>)
    ensures
        is_record(base + ".json"@),
        is_record(base + ".json.sig"@),
        is_record(name) ==> exists|b: Seq<char>|
            name == #[trigger] (b + ".json"@) || name == b + ".json.sig"@,
{
    text::law_beginnings_and_ends(base, ".json"@, base);
    text::law_beginnings_and_ends(base, ".json.sig"@, base);
    text::law_beginnings_and_ends(name, ".json"@, base);
    text::law_beginnings_and_ends(name, ".json.sig"@, base);
    if text::ends(name, ".json"@) {
        let b = name.subrange(0, name.len() - ".json"@.len());
        assert(name == b + ".json"@);
    } else if text::ends(name, ".json.sig"@) {
        let b = name.subrange(0, name.len() - ".json.sig"@.len());
        assert(b + ".json"@ == b + ".json"@);
        assert(name == b + ".json.sig"@);
    }
}

} // verus!
