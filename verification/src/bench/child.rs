//! What the agent knows about the child it started: whether a pid is
//! still that process, how to signal its group, and what its output lines
//! mean.
use crate::bench::config::{control, is_control};
use crate::bench::event::{EventKind, Verdict, VerdictKind};
use crate::bench::reply::MAX_LOG_LINE_BYTES;
use crate::text;
use vstd::prelude::*;

verus! {

/// The last place before `to` that holds `c`.
pub open spec fn find_last(s: Seq<char>, c: char, to: int) -> Option<int>
    decreases to,
{
    if to <= 0 || to > s.len() {
        None
    } else if s[to - 1] == c {
        Some(to - 1)
    } else {
        find_last(s, c, to - 1)
    }
}

/// The process start time in a `/proc/<pid>/stat` text, in clock ticks: the
/// twentieth word after the last closing bracket.
pub open spec fn ticks_in(stat: Seq<char>) -> Option<nat> {
    match find_last(stat, ')', stat.len() as int) {
        None => None,
        Some(i) => {
            let words = text::words_of(stat.subrange(i + 1, stat.len() as int));
            if words.len() > 19 {
                text::number(words[19], u64::MAX as nat)
            } else {
                None
            }
        },
    }
}

/// The process start time in a `/proc/<pid>/stat` text — the thing that
/// tells a live child from a pid the kernel reused.
pub fn start_ticks(stat: &str) -> (r: Option<u64>)
    ensures
        match r {
            Some(t) => ticks_in(stat@) == Some(t as nat),
            None => ticks_in(stat@) is None,
        },
{
    let v = text::to_chars(stat);
    let mut i: usize = v.len();
    while i > 0 && v[i - 1] != ')'
        invariant
            v@ == stat@,
            i <= v.len(),
            find_last(stat@, ')', stat@.len() as int) == find_last(stat@, ')', i as int),
        decreases i,
    {
        i -= 1;
    }
    if i == 0 {
        return None;
    }
    let after = text::from_range(&v, i, v.len());
    let words = text::words(&after);
    if words.len() > 19 {
        assert(text::views(words@)[19] == words@[19]@);
        text::parse_u64(&words[19])
    } else {
        None
    }
}

/// Is the process that now has a pid, by its start time, the one we started?
pub fn same_process(now: Option<u64>, ticks: u64) -> (r: bool)
    ensures
        r == (now == Some(ticks)),
{
    match now {
        Some(t) => t == ticks,
        None => false,
    }
}

/// How many bytes a character takes in UTF-8.
pub open spec fn width(c: char) -> nat {
    let n = c as u32;
    if n < 0x80 {
        1
    } else if n < 0x800 {
        2
    } else if n < 0x10000 {
        3
    } else {
        4
    }
}

/// How many bytes a text takes in UTF-8.
pub open spec fn byte_len(s: Seq<char>) -> nat
    decreases s.len(),
{
    if s.len() == 0 {
        0
    } else {
        byte_len(s.drop_last()) + width(s.last())
    }
}

/// The characters of a line that are kept: no control characters but tabs.
pub open spec fn visible(s: Seq<char>) -> Seq<char>
    decreases s.len(),
{
    if s.len() == 0 {
        s
    } else if is_control(s.last()) && s.last() != '\t' {
        visible(s.drop_last())
    } else {
        visible(s.drop_last()).push(s.last())
    }
}

/// How many characters fit into `max` bytes.
pub open spec fn fitting(s: Seq<char>, max: nat) -> int
    decreases s.len(),
{
    if s.len() == 0 || byte_len(s) <= max {
        s.len() as int
    } else {
        fitting(s.drop_last(), max)
    }
}

/// A line as it is kept: no control characters but tabs, and cut, with an
/// ellipsis, where it is too long.
pub open spec fn cleaned(s: Seq<char>) -> Seq<char> {
    let v = visible(s);
    if byte_len(v) > MAX_LOG_LINE_BYTES {
        v.subrange(0, fitting(v, MAX_LOG_LINE_BYTES as nat)).push('…')
    } else {
        v
    }
}

proof fn lemma_byte_len_grows(s: Seq<char>, i: int)
    requires
        0 <= i <= s.len(),
    ensures
        byte_len(s.subrange(0, i)) <= byte_len(s),
    decreases s.len(),
{
    if i == s.len() {
        assert(s.subrange(0, i) =~= s);
    } else {
        lemma_byte_len_grows(s.drop_last(), i);
        assert(s.drop_last().subrange(0, i) =~= s.subrange(0, i));
    }
}

proof fn lemma_fitting(s: Seq<char>, max: nat, k: int)
    requires
        0 <= k <= s.len(),
        byte_len(s.subrange(0, k)) <= max,
        k < s.len() ==> byte_len(s.subrange(0, k + 1)) > max,
    ensures
        fitting(s, max) == k,
    decreases s.len(),
{
    if k == s.len() {
        assert(s.subrange(0, k) =~= s);
    } else {
        lemma_byte_len_grows(s, k + 1);
        assert(s.drop_last().subrange(0, k) =~= s.subrange(0, k));
        if k < s.len() - 1 {
            assert(s.drop_last().subrange(0, k + 1) =~= s.subrange(0, k + 1));
        } else {
            assert(s.drop_last() =~= s.subrange(0, k));
        }
        lemma_fitting(s.drop_last(), max, k);
    }
}

fn char_width(c: char) -> (w: usize)
    ensures
        w == width(c),
        1 <= w <= 4,
{
    let n: u32 = c as u32;
    if n < 0x80 {
        1
    } else if n < 0x800 {
        2
    } else if n < 0x10000 {
        3
    } else {
        4
    }
}

/// A line as it is kept.
pub fn sanitize(line: &str) -> (r: String)
    ensures
        r@ == cleaned(line@),
{
    let v = text::to_chars(line);
    let mut out: Vec<char> = Vec::new();
    let mut i: usize = 0;
    assert(v@.subrange(0, 0) =~= Seq::empty());
    while i < v.len()
        invariant
            i <= v.len(),
            out@ == visible(v@.subrange(0, i as int)),
        decreases v.len() - i,
    {
        let ghost next = v@.subrange(0, i + 1);
        assert(next.drop_last() =~= v@.subrange(0, i as int));
        assert(next.last() == v@[i as int]);
        if !control(v[i]) || v[i] == '\t' {
            out.push(v[i]);
        }
        i += 1;
    }
    assert(v@.subrange(0, v@.len() as int) =~= v@);
    let mut used: usize = 0;
    let mut k: usize = 0;
    assert(out@.subrange(0, 0) =~= Seq::empty());
    while k < out.len()
        invariant
            k <= out.len(),
            used == byte_len(out@.subrange(0, k as int)),
            used <= MAX_LOG_LINE_BYTES,
            out@ == visible(line@),
        decreases out.len() - k,
    {
        let ghost next = out@.subrange(0, k + 1);
        assert(next.drop_last() =~= out@.subrange(0, k as int));
        assert(next.last() == out@[k as int]);
        let w = char_width(out[k]);
        if used + w > MAX_LOG_LINE_BYTES {
            proof {
                lemma_byte_len_grows(out@, k + 1);
                lemma_fitting(out@, MAX_LOG_LINE_BYTES as nat, k as int);
            }
            let mut s = text::from_range(&out, 0, k);
            s.push('…');
            return s;
        }
        used = used + w;
        k += 1;
    }
    assert(out@.subrange(0, out@.len() as int) =~= out@);
    text::from_range(&out, 0, out.len())
}

/// `s` without the white space at its front.
pub open spec fn trimmed_front(s: Seq<char>) -> Seq<char> {
    s.subrange(text::skip_space(s, 0), s.len() as int)
}

fn trim_start(s: &str) -> (r: String)
    ensures
        r@ == trimmed_front(s@),
{
    let v = text::to_chars(s);
    let mut i: usize = 0;
    while i < v.len() && text::white(v[i])
        invariant
            v@ == s@,
            i <= v.len(),
            text::skip_space(s@, 0) == text::skip_space(s@, i as int),
        decreases v.len() - i,
    {
        i += 1;
    }
    text::from_range(&v, i, v.len())
}

/// What follows a prefix.
pub open spec fn beyond(s: Seq<char>, p: Seq<char>) -> Seq<char> {
    s.subrange(p.len() as int, s.len() as int)
}

/// The kind of verdict that a line gives, and its text before cleaning.
pub open spec fn verdict_in(line: Seq<char>) -> Option<(VerdictKind, Seq<char>)> {
    let t = trimmed_front(line);
    if text::begins(t, "Pass: "@) {
        Some((VerdictKind::Pass, beyond(t, "Pass: "@)))
    } else if text::begins(t, "Fail: "@) {
        Some((VerdictKind::Fail, beyond(t, "Fail: "@)))
    } else if text::begins(t, "Info: "@) {
        Some((VerdictKind::Info, beyond(t, "Info: "@)))
    } else {
        None
    }
}

/// The verdict line the engine prints: `  Pass: …`, `  Fail: …`, `  Info: …`.
pub fn parse_verdict(line: &str) -> (r: Option<Verdict>)
    ensures
        match r {
            Some(v) => verdict_in(line@) is Some && v.kind == verdict_in(line@).unwrap().0
                && v.text@ == cleaned(verdict_in(line@).unwrap().1),
            None => verdict_in(line@) is None,
        },
{
    let t = trim_start(line);
    if let Some(rest) = text::strip_prefix(&t, "Pass: ") {
        return Some(Verdict { kind: VerdictKind::Pass, text: sanitize(&rest) });
    }
    if let Some(rest) = text::strip_prefix(&t, "Fail: ") {
        return Some(Verdict { kind: VerdictKind::Fail, text: sanitize(&rest) });
    }
    if let Some(rest) = text::strip_prefix(&t, "Info: ") {
        return Some(Verdict { kind: VerdictKind::Info, text: sanitize(&rest) });
    }
    None
}

/// The first place at or after `from` where `a` is followed by `b`, or the
/// length.
pub open spec fn find_two(s: Seq<char>, a: char, b: char, from: int) -> int
    decreases s.len() - from,
{
    if from < 0 || from + 1 >= s.len() {
        s.len() as int
    } else if s[from] == a && s[from + 1] == b {
        from
    } else {
        find_two(s, a, b, from + 1)
    }
}

/// The phase that a progress line names, before cleaning.
pub open spec fn phase_in(line: Seq<char>) -> Option<Seq<char>> {
    let t = trimmed_front(line);
    let i = find_two(t, 's', ']', 1);
    if t.len() == 0 || t[0] != '[' || i >= t.len() {
        None
    } else {
        let phase = text::trimmed(t.subrange(i + 2, t.len() as int));
        if phase.len() == 0 {
            None
        } else {
            Some(phase)
        }
    }
}

/// `  [  12.3s] phase [n/m]` as a progress event.
pub fn parse_progress(line: &str) -> (r: Option<EventKind>)
    ensures
        match r {
            Some(e) => {
                &&& phase_in(line@) is Some
                &&& e matches EventKind::Progress { phase, detail }
                &&& phase@ == cleaned(phase_in(line@).unwrap())
                &&& detail@.len() == 0
            },
            None => phase_in(line@) is None,
        },
{
    let t = trim_start(line);
    let v = text::to_chars(&t);
    if v.len() == 0 || v[0] != '[' {
        return None;
    }
    let mut i: usize = 1;
    while v.len() - i > 1 && !(v[i] == 's' && v[i + 1] == ']')
        invariant
            1 <= i <= v.len(),
            find_two(v@, 's', ']', 1) == find_two(v@, 's', ']', i as int),
        decreases v.len() - i,
    {
        i += 1;
    }
    if v.len() - i <= 1 {
        return None;
    }
    let after = text::from_range(&v, i + 2, v.len());
    let phase = text::trim(&after);
    if phase.as_str().is_empty() {
        None
    } else {
        Some(EventKind::Progress { phase: sanitize(&phase), detail: String::new() })
    }
}

/// The arguments of `kill` that signal a process group.
pub open spec fn group_args(pid: u32, signal: Seq<char>) -> Seq<Seq<char>> {
    seq![signal, "--"@, "-"@ + text::dec(pid as nat)]
}

/// The arguments of `kill` that signal a child: first its group, then the
/// process alone.
pub fn kill_group(pid: u32, signal: &str) -> (r: (Vec<String>, Vec<String>))
    ensures
        text::views(r.0@) == group_args(pid, signal@),
        text::views(r.1@) == seq![signal@, text::dec(pid as nat)],
{
    let number = text::decimal(pid as u64);
    let mut group: Vec<String> = Vec::new();
    group.push(text::copy(signal));
    group.push(text::copy("--"));
    group.push(text::cat2("-", &number));
    assert(text::views(group@) =~= group_args(pid, signal@));
    let mut single: Vec<String> = Vec::new();
    single.push(text::copy(signal));
    single.push(number);
    assert(text::views(single@) =~= seq![signal@, text::dec(pid as nat)]);
    (group, single)
}

/// Law: a kept line is never longer than the limit and the ellipsis, and
/// holds no control character but tabs.
pub proof fn law_kept_lines_are_bounded(s: Seq<char>)
    ensures
        byte_len(cleaned(s)) <= MAX_LOG_LINE_BYTES + 3,
        forall|i: int|
            0 <= i < cleaned(s).len() ==> !is_control(#[trigger] cleaned(s)[i]) || cleaned(s)[i]
                == '\t',
{
    lemma_visible(s);
    let v = visible(s);
    if byte_len(v) > MAX_LOG_LINE_BYTES {
        lemma_fitting_bound(v, MAX_LOG_LINE_BYTES as nat);
        let k = fitting(v, MAX_LOG_LINE_BYTES as nat);
        let c = v.subrange(0, k).push('…');
        assert(c.drop_last() =~= v.subrange(0, k));
        assert(width('…') == 3);
    }
}

proof fn lemma_visible(s: Seq<char>)
    ensures
        forall|i: int|
            0 <= i < visible(s).len() ==> !is_control(#[trigger] visible(s)[i]) || visible(s)[i]
                == '\t',
    decreases s.len(),
{
    if s.len() > 0 {
        lemma_visible(s.drop_last());
        let r = visible(s.drop_last());
        assert forall|i: int| 0 <= i < visible(s).len() implies !is_control(
            #[trigger] visible(s)[i],
        ) || visible(s)[i] == '\t' by {
            if i < r.len() {
                assert(visible(s)[i] == r[i]);
            }
        }
    }
}

proof fn lemma_fitting_bound(s: Seq<char>, max: nat)
    ensures
        0 <= fitting(s, max) <= s.len(),
        byte_len(s.subrange(0, fitting(s, max))) <= max,
    decreases s.len(),
{
    if s.len() == 0 || byte_len(s) <= max {
        assert(s.subrange(0, s.len() as int) =~= s);
    } else {
        lemma_fitting_bound(s.drop_last(), max);
        let k = fitting(s, max);
        assert(s.drop_last().subrange(0, k) =~= s.subrange(0, k));
    }
}

/// Law: what is found last is followed by no other.
pub proof fn law_the_last_is_followed_by_none(s: Seq<char>, c: char)
    ensures
        match find_last(s, c, s.len() as int) {
            Some(i) => 0 <= i < s.len() && s[i] == c && forall|k: int|
                i < k < s.len() ==> #[trigger] s[k] != c,
            None => !s.contains(c),
        },
{
    lemma_find_last(s, c, s.len() as int);
}

proof fn lemma_find_last(s: Seq<char>, c: char, to: int)
    requires
        0 <= to <= s.len(),
    ensures
        match find_last(s, c, to) {
            Some(i) => 0 <= i < to && s[i] == c && forall|k: int|
                i < k < to ==> #[trigger] s[k] != c,
            None => forall|k: int| 0 <= k < to ==> #[trigger] s[k] != c,
        },
    decreases to,
{
    if to > 0 && s[to - 1] != c {
        lemma_find_last(s, c, to - 1);
    }
}

/// Law: when a process started is the twentieth word behind its name, which
/// may itself hold brackets and spaces; where there are not so many words it
/// is not known.
pub proof fn law_the_start_is_the_twentieth_word(name: Seq<char>, rest: Seq<char>)
    requires
        !rest.contains(')'),
    ensures
        ({
            let stat = name + seq![')'] + rest;
            let words = text::words_of(rest);
            &&& words.len() < 20 ==> ticks_in(stat) is None
            &&& words.len() >= 20 ==> ticks_in(stat) == text::number(words[19], u64::MAX as nat)
        }),
        !rest.contains(')') ==> ticks_in(rest) is None,
{
    let stat = name + seq![')'] + rest;
    lemma_find_last(stat, ')', stat.len() as int);
    lemma_find_last(rest, ')', rest.len() as int);
    let at = name.len() as int;
    assert(stat[at] == ')');
    let i = find_last(stat, ')', stat.len() as int).unwrap();
    assert(i == at) by {
        if i > at {
            assert(rest[i - at - 1] == ')');
        }
    }
    assert(stat.subrange(at + 1, stat.len() as int) =~= rest);
}

/// Not a control character, or a tab.
pub open spec fn is_visible() -> spec_fn(char) -> bool {
    |c: char| !(c as u32 <= 0x1f || 0x7f <= c as u32 <= 0x9f) || c == '\t'
}

/// Law: a line is kept as it is, less what cannot be shown. One that is short
/// enough is kept whole; of a longer one as much is kept from its beginning as
/// fits, and not a character less.
pub proof fn law_a_line_is_kept_as_far_as_it_fits(s: Seq<char>)
    ensures
        visible(s) == s.filter(is_visible()),
        byte_len(visible(s)) <= 2048 ==> cleaned(s) == visible(s),
        byte_len(visible(s)) > 2048 ==> {
            let k = cleaned(s).len() - 1;
            &&& 0 <= k < visible(s).len()
            &&& cleaned(s) == visible(s).subrange(0, k).push('…')
            &&& byte_len(visible(s).subrange(0, k)) <= 2048
            &&& byte_len(visible(s).subrange(0, k + 1)) > 2048
        },
{
    lemma_visible_filter(s);
    let v = visible(s);
    if byte_len(v) > 2048 {
        lemma_fitting_bound(v, 2048);
        lemma_fitting_most(v, 2048);
        let k = fitting(v, 2048);
        assert(v.subrange(0, v.len() as int) =~= v);
        assert(v.subrange(0, k).push('…').len() == k + 1);
    }
}

proof fn lemma_visible_filter(s: Seq<char>)
    ensures
        visible(s) == s.filter(is_visible()),
    decreases s.len(),
{
    reveal(Seq::filter);
    if s.len() > 0 {
        lemma_visible_filter(s.drop_last());
    }
}

proof fn lemma_fitting_most(s: Seq<char>, max: nat)
    ensures
        fitting(s, max) < s.len() ==> byte_len(s.subrange(0, fitting(s, max) + 1)) > max,
    decreases s.len(),
{
    if s.len() > 0 && byte_len(s) > max {
        lemma_fitting_bound(s, max);
        let front = s.drop_last();
        lemma_fitting_bound(front, max);
        lemma_fitting_most(front, max);
        let k = fitting(s, max);
        if k < front.len() {
            assert(front.subrange(0, k + 1) =~= s.subrange(0, k + 1));
        } else {
            assert(s.subrange(0, k + 1) =~= s);
        }
    }
}

/// Law: bytes are counted as UTF-8 has them: text by text, and one to four for
/// a character.
pub proof fn law_bytes_are_counted_by_character(a: Seq<char>, b: Seq<char>, c: char)
    ensures
        byte_len(a + b) == byte_len(a) + byte_len(b),
        byte_len(seq![c]) == (if c as u32 <= 0x7f {
            1nat
        } else if c as u32 <= 0x7ff {
            2
        } else if c as u32 <= 0xffff {
            3
        } else {
            4
        }),
    decreases b.len(),
{
    assert(seq![c].drop_last() =~= Seq::empty());
    assert(byte_len(seq![c].drop_last()) == 0);
    assert(seq![c].last() == c);
    if b.len() > 0 {
        law_bytes_are_counted_by_character(a, b.drop_last(), c);
        assert((a + b).drop_last() =~= a + b.drop_last());
    } else {
        assert(a + b =~= a);
    }
}

/// The word that a verdict begins with.
pub open spec fn verdict_word(kind: VerdictKind) -> Seq<char> {
    match kind {
        VerdictKind::Pass => "Pass: "@,
        VerdictKind::Fail => "Fail: "@,
        VerdictKind::Info => "Info: "@,
    }
}

/// Law: a line that says `Pass: `, `Fail: ` or `Info: ` behind nothing but
/// space is a verdict, with everything that follows; no other line is one.
pub proof fn law_a_verdict_is_what_follows_its_word(gap: Seq<char>, text: Seq<char>, line: Seq<char>)
    requires
        forall|i: int| 0 <= i < gap.len() ==> text::is_space(#[trigger] gap[i]),
    ensures
        verdict_in(gap + "Pass: "@ + text) == Some((VerdictKind::Pass, text)),
        verdict_in(gap + "Fail: "@ + text) == Some((VerdictKind::Fail, text)),
        verdict_in(gap + "Info: "@ + text) == Some((VerdictKind::Info, text)),
        verdict_in(line) matches Some((kind, said)) ==> exists|front: Seq<char>|
            line == #[trigger] (front + verdict_word(kind)) + said && forall|i: int|
                0 <= i < front.len() ==> text::is_space(#[trigger] front[i]),
{
    reveal_strlit("Pass: ");
    reveal_strlit("Fail: ");
    reveal_strlit("Info: ");
    lemma_verdict(gap, "Pass: "@, text);
    lemma_verdict(gap, "Fail: "@, text);
    lemma_verdict(gap, "Info: "@, text);
    assert(("Fail: "@ + text)[0] == 'F');
    assert(("Info: "@ + text)[0] == 'I');
    if text::begins("Fail: "@ + text, "Pass: "@) {
        assert(("Fail: "@ + text).subrange(0, 6)[0] == 'P');
    }
    if text::begins("Info: "@ + text, "Pass: "@) {
        assert(("Info: "@ + text).subrange(0, 6)[0] == 'P');
    }
    if text::begins("Info: "@ + text, "Fail: "@) {
        assert(("Info: "@ + text).subrange(0, 6)[0] == 'F');
    }
    if verdict_in(line) is Some {
        let (kind, said) = verdict_in(line).unwrap();
        let word = verdict_word(kind);
        text::lemma_skip_space(line, 0);
        let n = text::skip_space(line, 0);
        let front = line.subrange(0, n);
        text::law_beginnings_and_ends(trimmed_front(line), word, Seq::empty());
        assert(line =~= front + trimmed_front(line));
        assert(line =~= (front + word) + said);
        assert forall|i: int| 0 <= i < front.len() implies text::is_space(#[trigger] front[i]) by {
            assert(front[i] == line[i]);
        }
    }
}

proof fn lemma_verdict(gap: Seq<char>, word: Seq<char>, rest: Seq<char>)
    requires
        forall|i: int| 0 <= i < gap.len() ==> text::is_space(#[trigger] gap[i]),
        word.len() > 0,
        !text::is_space(word[0]),
    ensures
        trimmed_front(gap + word + rest) == word + rest,
        text::begins(word + rest, word),
        beyond(word + rest, word) == rest,
{
    let s = gap + word + rest;
    text::lemma_skip_space(s, 0);
    let n = text::skip_space(s, 0);
    assert(s[gap.len() as int] == word[0]);
    assert(n == gap.len()) by {
        if n < gap.len() {
            assert(s[n] == gap[n]);
        }
    }
    assert(s.subrange(n, s.len() as int) =~= word + rest);
    assert((word + rest).subrange(0, word.len() as int) =~= word);
    assert((word + rest).subrange(word.len() as int, (word + rest).len() as int) =~= rest);
}

/// Law: a line that begins with a time in brackets says which phase the run is
/// in: what follows the bracket, without the space around it, where that is
/// anything.
pub proof fn law_a_phase_is_what_follows_the_time(gap: Seq<char>, time: Seq<char>, rest: Seq<char>)
    requires
        forall|i: int| 0 <= i < gap.len() ==> text::is_space(#[trigger] gap[i]),
        forall|i: int| 0 <= i < time.len() ==> #[trigger] time[i] != 's',
    ensures
        phase_in(gap + ("["@ + time + "s]"@) + rest) == (if text::trimmed(rest).len() == 0 {
            None
        } else {
            Some(text::trimmed(rest))
        }),
{
    reveal_strlit("[");
    reveal_strlit("s]");
    let word = "["@ + time + "s]"@;
    assert(word[0] == '[');
    lemma_verdict(gap, word, rest);
    let t = word + rest;
    let at = time.len() as int + 1;
    lemma_find_two(t, 's', ']', 1, at);
    assert(t.subrange(at + 2, t.len() as int) =~= rest);
}

proof fn lemma_find_two(s: Seq<char>, a: char, b: char, from: int, at: int)
    requires
        0 <= from <= at,
        at + 1 < s.len(),
        s[at] == a,
        s[at + 1] == b,
        forall|k: int| from <= k < at ==> #[trigger] s[k] != a,
    ensures
        find_two(s, a, b, from) == at,
    decreases at - from,
{
    if from < at {
        assert(s[from] != a);
        lemma_find_two(s, a, b, from + 1, at);
    }
}

/// Law: a signal goes to the child's group, which is named by the child's own
/// number with a minus before it.
pub proof fn law_a_signal_goes_to_the_group(pid: u32, signal: Seq<char>)
    ensures
        group_args(pid, signal).len() == 3,
        group_args(pid, signal)[0] == signal,
        group_args(pid, signal)[1] == "--"@,
        group_args(pid, signal)[2] == "-"@ + text::dec(pid as nat),
{
}

} // verus!
