//! The per-job event journal: append-only, with a number that only grows.
//!
//! The file is the truth. A reader that lost its connection replays from the
//! number it last saw, so nothing is missed and nothing is delivered twice.
use crate::bench::event::{BenchEvent, EventKind};
use crate::text;
use vstd::prelude::*;

verus! {

/// One job's journal: the job, and the highest number given out.
#[derive(Debug, Clone, PartialEq, Eq)]
pub struct Journal {
    pub job: String,
    pub seq: u64,
}

/// The highest number in a journal: that of its last event.
pub open spec fn last_seq(events: Seq<BenchEvent>) -> u64 {
    if events.len() == 0 {
        0
    } else {
        events.last().seq
    }
}

impl Journal {
    /// A journal that goes on from what is already there.
    pub fn open(job: String, events: &Vec<BenchEvent>) -> (j: Journal)
        ensures
            j.job == job,
            j.seq == last_seq(events@),
    {
        if events.len() == 0 {
            Journal { job, seq: 0 }
        } else {
            Journal { job, seq: events[events.len() - 1].seq }
        }
    }

    /// Gives the next number to an event, which is then to be written.
    /// Heartbeats are refused: they are never journaled.
    pub fn append(&mut self, kind: EventKind, at_ms: u64) -> (r: Result<BenchEvent, String>)
        requires
            old(self).seq < u64::MAX,
        ensures
            match r {
                Ok(e) => {
                    &&& !(kind is Heartbeat)
                    &&& e == (BenchEvent {
                        job: old(self).job,
                        seq: (old(self).seq + 1) as u64,
                        at_ms,
                        kind,
                    })
                    &&& *final(self) == (Journal {
                        job: old(self).job,
                        seq: (old(self).seq + 1) as u64,
                    })
                },
                Err(why) => {
                    &&& kind is Heartbeat
                    &&& why@ == "heartbeats are never journaled"@
                    &&& *final(self) == *old(self)
                },
            },
    {
        if let EventKind::Heartbeat { .. } = kind {
            return Err(text::copy("heartbeats are never journaled"));
        }
        self.seq = self.seq + 1;
        Ok(BenchEvent { job: self.job.clone(), seq: self.seq, at_ms, kind })
    }

    /// The highest journaled number.
    pub fn seq_high(&self) -> (n: u64)
        ensures
            n == self.seq,
    {
        self.seq
    }
}

/// The events of the first `n` lines that read as one and are numbered
/// `from` or more.
pub open spec fn numbered(lines: Seq<Option<BenchEvent>>, from: u64, n: int) -> Seq<BenchEvent>
    decreases n,
{
    if n <= 0 {
        Seq::empty()
    } else {
        match lines[n - 1] {
            Some(e) => if e.seq >= from {
                numbered(lines, from, n - 1).push(e)
            } else {
                numbered(lines, from, n - 1)
            },
            None => numbered(lines, from, n - 1),
        }
    }
}

/// Every line but the last reads as an event.
pub open spec fn whole(lines: Seq<Option<BenchEvent>>) -> bool {
    forall|i: int| 0 <= i < lines.len() - 1 ==> (#[trigger] lines[i]) is Some
}

/// The events of a journal's lines that are numbered `from` or more. A last
/// line that does not read as an event was torn by an agent that died
/// mid-write, and is dropped; any other such line means that the journal is
/// corrupt, and its place is named.
pub fn replay(lines: Vec<Option<BenchEvent>>, from: u64) -> (r: Result<Vec<BenchEvent>, usize>)
    ensures
        match r {
            Ok(events) => whole(lines@) && events@ == numbered(
                lines@,
                from,
                lines@.len() as int,
            ),
            Err(i) => i < lines@.len() - 1 && lines@[i as int] is None && forall|k: int|
                0 <= k < i ==> (#[trigger] lines@[k]) is Some,
        },
{
    let ghost all = lines@;
    let total = lines.len();
    let mut rest = lines;
    let mut out: Vec<BenchEvent> = Vec::new();
    let mut i: usize = 0;
    assert(rest@ =~= all.subrange(0, all.len() as int));
    while rest.len() > 0
        invariant
            all == lines@,
            total == all.len(),
            i <= total,
            rest@ == all.subrange(i as int, all.len() as int),
            out@ == numbered(all, from, i as int),
            forall|k: int| 0 <= k < i && k < all.len() - 1 ==> (#[trigger] all[k]) is Some,
        decreases rest.len(),
    {
        let line = rest.remove(0);
        assert(line == all[i as int]);
        assert(rest@ =~= all.subrange(i + 1, all.len() as int));
        match line {
            Some(e) => {
                if e.seq >= from {
                    out.push(e);
                }
            },
            None => {
                if rest.len() > 0 {
                    return Err(i);
                }
            },
        }
        i += 1;
    }
    Ok(out)
}

/// How many of a journal's lines stay when it is written to: all of them but
/// a torn last one.
pub open spec fn kept_lines(lines: Seq<Option<BenchEvent>>) -> int {
    if lines.len() > 0 && lines.last() is None {
        lines.len() - 1
    } else {
        lines.len() as int
    }
}

/// What is done to a journal before an event is written to it.
#[derive(Debug, Clone, Copy, PartialEq, Eq, Structural)]
pub struct Mend {
    /// How many lines stay; what follows them is cut.
    pub keep: usize,
    /// Whether the last line that stays has to be ended first.
    pub end_line: bool,
}

/// Decide what is done to a journal before an event is written to it. A torn
/// last line is cut: an event written onto it would be lost with it. A last
/// line that reads as an event and lost only its end is ended, and stays.
/// `ended` says whether the last line of the file is ended.
pub fn before_write(lines: &Vec<Option<BenchEvent>>, ended: bool) -> (m: Mend)
    ensures
        m.keep == kept_lines(lines@),
        m.end_line == (lines@.len() > 0 && lines@.last() is Some && !ended),
{
    let n = lines.len();
    if n == 0 {
        return Mend { keep: 0, end_line: false };
    }
    match &lines[n - 1] {
        Some(_) => Mend { keep: n, end_line: !ended },
        None => Mend { keep: n - 1, end_line: false },
    }
}

/// The lines of a journal after an event was written behind those that stay.
pub open spec fn after_write(lines: Seq<Option<BenchEvent>>, e: BenchEvent) -> Seq<
    Option<BenchEvent>,
> {
    lines.subrange(0, kept_lines(lines)).push(Some(e))
}

/// The lines of events, each of which reads as one.
pub open spec fn written(events: Seq<BenchEvent>) -> Seq<Option<BenchEvent>> {
    events.map_values(|e: BenchEvent| Some(e))
}

/// Events as a journal numbers them: from one, each one more than the last.
pub open spec fn consecutive(events: Seq<BenchEvent>) -> bool {
    forall|i: int| 0 <= i < events.len() ==> (#[trigger] events[i]).seq == i + 1
}

/// Law: what was appended is replayed. From any number on, a replay gives
/// back exactly the events with that number or a higher one, each once and
/// in order.
pub proof fn law_replay_resumes_from_any_number(events: Seq<BenchEvent>, from: u64)
    requires
        consecutive(events),
    ensures
        whole(written(events)),
        numbered(written(events), from, events.len() as int) == (if from <= 1 {
            events
        } else if from > events.len() {
            Seq::empty()
        } else {
            events.subrange(from - 1, events.len() as int)
        }),
{
    lemma_numbered(events, from, events.len() as int);
    assert(events.subrange(0, events.len() as int) =~= events);
}

proof fn lemma_numbered(events: Seq<BenchEvent>, from: u64, n: int)
    requires
        consecutive(events),
        0 <= n <= events.len(),
    ensures
        numbered(written(events), from, n) == (if from <= 1 {
            events.subrange(0, n)
        } else if from > n {
            Seq::empty()
        } else {
            events.subrange(from - 1, n)
        }),
    decreases n,
{
    if n > 0 {
        lemma_numbered(events, from, n - 1);
        assert(written(events)[n - 1] == Some(events[n - 1]));
        assert(events[n - 1].seq == n);
        if from <= 1 {
            assert(events.subrange(0, n) =~= events.subrange(0, n - 1).push(events[n - 1]));
        } else if from <= n {
            if from == n {
                assert(events.subrange(from - 1, n) =~= Seq::empty().push(events[n - 1]));
            } else {
                assert(events.subrange(from - 1, n) =~= events.subrange(from - 1, n - 1).push(
                    events[n - 1],
                ));
            }
        }
    } else {
        assert(numbered(written(events), from, 0) =~= Seq::empty());
        assert(events.subrange(0, 0) =~= Seq::<BenchEvent>::empty());
    }
}

/// Law: nothing is missed and nothing is delivered twice. A reader that has
/// seen every event up to a number, and replays from the next, has seen
/// every event exactly once.
pub proof fn law_nothing_missed_nothing_twice(events: Seq<BenchEvent>, seen: u64)
    requires
        consecutive(events),
        seen <= events.len(),
        seen < u64::MAX,
    ensures
        events.subrange(0, seen as int) + numbered(
            written(events),
            (seen + 1) as u64,
            events.len() as int,
        ) == events,
{
    law_replay_resumes_from_any_number(events, (seen + 1) as u64);
    if seen == 0 {
        assert(events.subrange(0, 0) + events =~= events);
    } else if seen == events.len() {
        assert(events.subrange(0, seen as int) + Seq::<BenchEvent>::empty() =~= events);
    } else {
        assert(events.subrange(0, seen as int) + events.subrange(seen as int, events.len() as int)
            =~= events);
    }
}

/// Law: a torn last line costs nothing that was written whole. With such a
/// line at the end a replay gives what it gives without it.
pub proof fn law_a_torn_tail_is_dropped(events: Seq<BenchEvent>, from: u64)
    ensures
        whole(written(events).push(None)),
        numbered(written(events).push(None), from, (events.len() + 1) as int) == numbered(
            written(events),
            from,
            events.len() as int,
        ),
{
    lemma_numbered_prefix(written(events), written(events).push(None), from, events.len() as int);
    let lines = written(events).push(None);
    assert forall|i: int| 0 <= i < lines.len() - 1 implies (#[trigger] lines[i]) is Some by {
        assert(lines[i] == written(events)[i]);
    }
}

proof fn lemma_numbered_prefix(
    a: Seq<Option<BenchEvent>>,
    b: Seq<Option<BenchEvent>>,
    from: u64,
    n: int,
)
    requires
        0 <= n <= a.len(),
        n <= b.len(),
        forall|i: int| 0 <= i < n ==> a[i] == b[i],
    ensures
        numbered(a, from, n) == numbered(b, from, n),
    decreases n,
{
    if n > 0 {
        lemma_numbered_prefix(a, b, from, n - 1);
    }
}

/// Law: a journal that is opened again goes on counting. Appending to a
/// journal's events keeps them numbered from one without a gap.
pub proof fn law_numbering_has_no_gaps(events: Seq<BenchEvent>, e: BenchEvent)
    requires
        consecutive(events),
        e.seq == last_seq(events) + 1,
    ensures
        consecutive(events.push(e)),
{
}

/// Law: an event that was appended is replayed, also where the journal ended
/// in a torn line. Written behind the lines that stay, it leaves a journal
/// that is whole, and from any number on a replay gives what it gave before,
/// followed by the new event.
pub proof fn law_an_appended_event_is_replayed(
    lines: Seq<Option<BenchEvent>>,
    e: BenchEvent,
    from: u64,
)
    requires
        whole(lines),
    ensures
        whole(after_write(lines, e)),
        numbered(after_write(lines, e), from, after_write(lines, e).len() as int) == (if e.seq
            >= from {
            numbered(lines, from, lines.len() as int).push(e)
        } else {
            numbered(lines, from, lines.len() as int)
        }),
{
    let kept = kept_lines(lines);
    let next = after_write(lines, e);
    assert(next.len() == kept + 1);
    assert forall|i: int| 0 <= i < next.len() - 1 implies (#[trigger] next[i]) is Some by {
        assert(next[i] == lines[i]);
    }
    lemma_numbered_prefix(lines, next, from, kept);
    assert(next[kept] == Some(e));
}

/// Law: a journal with a torn tail is, once an event has been appended, the
/// journal of its old events and the new one: as if the tail had never been
/// there.
pub proof fn law_a_torn_tail_leaves_no_trace(events: Seq<BenchEvent>, torn: bool, e: BenchEvent)
    requires
        consecutive(events),
        e.seq == last_seq(events) + 1,
    ensures
        after_write(
            if torn {
                written(events).push(None)
            } else {
                written(events)
            },
            e,
        ) == written(events.push(e)),
        consecutive(events.push(e)),
{
    let lines = if torn {
        written(events).push(None)
    } else {
        written(events)
    };
    if events.len() > 0 {
        assert(written(events).last() == Some(events.last()));
    }
    assert(kept_lines(lines) == events.len());
    assert(after_write(lines, e) =~= written(events.push(e)));
}

} // verus!
