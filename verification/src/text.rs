//! Text as sequences of characters: building, splitting, trimming, reading
//! numbers, and the order in which names are listed.
use vstd::prelude::*;

verus! {

/// Appends one character to a `String` (`String::push` of std).
pub assume_specification[ String::push ](s: &mut String, c: char)
    ensures
        final(s)@ == old(s)@.push(c),
;

// ---------------------------------------------------------------------------
// Characters in and out of strings
// ---------------------------------------------------------------------------

/// The characters of a string, in order.
pub fn to_chars(s: &str) -> (v: Vec<char>)
    ensures
        v@ == s@,
{
    let mut v: Vec<char> = Vec::new();
    for c in it: s.chars()
        invariant
            it.seq() == s@,
            v@ == s@.subrange(0, it.index() as int),
    {
        v.push(c);
        assert(v@ =~= s@.subrange(0, it.index() + 1));
    }
    assert(s@.subrange(0, s@.len() as int) =~= s@);
    v
}

/// The string made of the characters `v[from..to]`.
pub fn from_range(v: &Vec<char>, from: usize, to: usize) -> (s: String)
    requires
        from <= to <= v.len(),
    ensures
        s@ == v@.subrange(from as int, to as int),
{
    let mut s = String::new();
    let mut i: usize = from;
    assert(s@ =~= v@.subrange(from as int, from as int));
    while i < to
        invariant
            from <= i <= to <= v.len(),
            s@ == v@.subrange(from as int, i as int),
        decreases to - i,
    {
        s.push(v[i]);
        i += 1;
        assert(s@ =~= v@.subrange(from as int, i as int));
    }
    s
}

/// Whether two strings hold the same characters.
pub fn same(a: &str, b: &str) -> (r: bool)
    ensures
        r == (a@ == b@),
{
    let x = a.to_owned();
    let y = b.to_owned();
    x == y
}

/// An owned copy of a string.
pub fn copy(a: &str) -> (r: String)
    ensures
        r@ == a@,
{
    a.to_owned()
}

/// `a` followed by `b`.
pub fn cat2(a: &str, b: &str) -> (r: String)
    ensures
        r@ == a@ + b@,
{
    let mut s = a.to_owned();
    s.append(b);
    s
}

/// The three strings one after another.
pub fn cat3(a: &str, b: &str, c: &str) -> (r: String)
    ensures
        r@ == a@ + b@ + c@,
{
    let mut s = a.to_owned();
    s.append(b);
    s.append(c);
    s
}

/// The views of the strings of a list.
pub open spec fn views(v: Seq<String>) -> Seq<Seq<char>> {
    v.map_values(|s: String| s@)
}

// ---------------------------------------------------------------------------
// Decimal numbers
// ---------------------------------------------------------------------------

/// The character of one decimal digit.
pub open spec fn digit(d: nat) -> char {
    (48 + d) as char
}

/// A number in decimal, without leading zeros.
pub open spec fn dec(n: nat) -> Seq<char>
    decreases n,
{
    if n < 10 {
        seq![digit(n)]
    } else {
        dec(n / 10).push(digit(n % 10))
    }
}

/// A number in decimal is one digit or more.
pub proof fn lemma_dec(n: nat)
    ensures
        dec(n).len() > 0,
        all_digits(dec(n)),
    decreases n,
{
    if n >= 10 {
        lemma_dec(n / 10);
        assert forall|i: int| 0 <= i < dec(n).len() implies is_digit(#[trigger] dec(n)[i]) by {
            if i < dec(n / 10).len() {
                assert(dec(n)[i] == dec(n / 10)[i]);
            }
        }
    }
}

/// A signed number in decimal.
pub open spec fn dec_int(n: int) -> Seq<char> {
    if n < 0 {
        "-"@ + dec((-n) as nat)
    } else {
        dec(n as nat)
    }
}

fn digit_char(d: u8) -> (c: char)
    requires
        d < 10,
    ensures
        c == digit(d as nat),
{
    (48u8 + d) as char
}

/// A number in decimal, without leading zeros.
pub fn decimal(n: u64) -> (s: String)
    ensures
        s@ == dec(n as nat),
    decreases n,
{
    if n < 10 {
        let mut s = String::new();
        s.push(digit_char(n as u8));
        assert(s@ =~= dec(n as nat));
        s
    } else {
        let mut s = decimal(n / 10);
        s.push(digit_char((n % 10) as u8));
        s
    }
}

/// A signed number in decimal.
pub fn decimal_i64(n: i64) -> (s: String)
    ensures
        s@ == dec_int(n as int),
{
    if n >= 0 {
        decimal(n as u64)
    } else if n == i64::MIN {
        let d = decimal(9223372036854775808u64);
        cat2("-", &d)
    } else {
        let d = decimal((-n) as u64);
        cat2("-", &d)
    }
}


// ---------------------------------------------------------------------------
// Prefixes, suffixes, searching
// ---------------------------------------------------------------------------

/// Whether `s` begins with `p`.
pub open spec fn begins(s: Seq<char>, p: Seq<char>) -> bool {
    p.len() <= s.len() && s.subrange(0, p.len() as int) == p
}

/// Whether `s` ends with `p`.
pub open spec fn ends(s: Seq<char>, p: Seq<char>) -> bool {
    p.len() <= s.len() && s.subrange(s.len() - p.len(), s.len() as int) == p
}

/// The first place at or after `from` that holds `c`, or the length.
pub open spec fn find(s: Seq<char>, c: char, from: int) -> int
    decreases s.len() - from,
{
    if from < 0 || from >= s.len() {
        s.len() as int
    } else if s[from] == c {
        from
    } else {
        find(s, c, from + 1)
    }
}

/// `find` stays between where it started and the end.
pub proof fn lemma_find(s: Seq<char>, c: char, from: int)
    requires
        0 <= from <= s.len(),
    ensures
        from <= find(s, c, from) <= s.len(),
        find(s, c, from) < s.len() ==> s[find(s, c, from)] == c,
        forall|k: int| from <= k < find(s, c, from) ==> s[k] != c,
    decreases s.len() - from,
{
    if from < s.len() && s[from] != c {
        lemma_find(s, c, from + 1);
    }
}

/// The first place at or after `from` that holds `c`, or the length.
pub fn find_char(v: &Vec<char>, c: char, from: usize) -> (i: usize)
    requires
        from <= v.len(),
    ensures
        i == find(v@, c, from as int),
        from <= i <= v.len(),
{
    let mut i: usize = from;
    while i < v.len() && v[i] != c
        invariant
            from <= i <= v.len(),
            find(v@, c, from as int) == find(v@, c, i as int),
        decreases v.len() - i,
    {
        i += 1;
    }
    i
}

/// Whether `v[at..]` begins with `p`.
fn chars_at(v: &Vec<char>, at: usize, p: &Vec<char>) -> (r: bool)
    requires
        at + p.len() <= v.len(),
    ensures
        r == (v@.subrange(at as int, at + p.len()) == p@),
{
    let mut i: usize = 0;
    while i < p.len()
        invariant
            at + p.len() <= v.len(),
            i <= p.len(),
            forall|k: int| 0 <= k < i ==> v@[at + k] == p@[k],
        decreases p.len() - i,
    {
        if v[at + i] != p[i] {
            assert(v@.subrange(at as int, at + p.len())[i as int] != p@[i as int]);
            return false;
        }
        i += 1;
    }
    assert(v@.subrange(at as int, at + p.len()) =~= p@);
    true
}

/// Whether `s` begins with `p`.
pub fn starts_with(s: &str, p: &str) -> (r: bool)
    ensures
        r == begins(s@, p@),
{
    let v = to_chars(s);
    let w = to_chars(p);
    w.len() <= v.len() && chars_at(&v, 0, &w)
}

/// Whether `s` ends with `p`.
pub fn ends_with(s: &str, p: &str) -> (r: bool)
    ensures
        r == ends(s@, p@),
{
    let v = to_chars(s);
    let w = to_chars(p);
    w.len() <= v.len() && chars_at(&v, v.len() - w.len(), &w)
}

/// What follows the prefix `p`, when `s` begins with it.
pub fn strip_prefix(s: &str, p: &str) -> (r: Option<String>)
    ensures
        match r {
            Some(rest) => begins(s@, p@) && rest@ == s@.subrange(p@.len() as int, s@.len() as int),
            None => !begins(s@, p@),
        },
{
    let v = to_chars(s);
    let w = to_chars(p);
    if w.len() <= v.len() && chars_at(&v, 0, &w) {
        Some(from_range(&v, w.len(), v.len()))
    } else {
        None
    }
}

/// Whether `c` occurs in `s`.
pub fn has_char(s: &str, c: char) -> (r: bool)
    ensures
        r == s@.contains(c),
{
    let v = to_chars(s);
    let i = find_char(&v, c, 0);
    proof {
        lemma_find(v@, c, 0);
        if i < v.len() {
            assert(s@[i as int] == c);
        }
    }
    i < v.len()
}

// ---------------------------------------------------------------------------
// Splitting
// ---------------------------------------------------------------------------

/// The pieces of `s[from..]` between the places that hold `c`.
pub open spec fn split_from(s: Seq<char>, c: char, from: int) -> Seq<Seq<char>>
    decreases s.len() - from,
{
    let i = find(s, c, from);
    if from < 0 || from > s.len() || i >= s.len() || i < from {
        seq![s.subrange(from, s.len() as int)]
    } else {
        seq![s.subrange(from, i)] + split_from(s, c, i + 1)
    }
}

/// The pieces of `s` between the places that hold `c`.
pub open spec fn split(s: Seq<char>, c: char) -> Seq<Seq<char>> {
    split_from(s, c, 0)
}

/// The pieces of `s` between the places that hold `c`; never empty.
pub fn split_on(s: &str, c: char) -> (r: Vec<String>)
    ensures
        views(r@) == split(s@, c),
        r.len() > 0,
{
    let v = to_chars(s);
    let mut out: Vec<String> = Vec::new();
    let mut from: usize = 0;
    assert(views(out@) + split_from(v@, c, 0) =~= split(v@, c));
    loop
        invariant
            v@ == s@,
            from <= v.len(),
            views(out@) + split_from(v@, c, from as int) == split(v@, c),
        decreases v.len() - from,
    {
        let i = find_char(&v, c, from);
        let piece = from_range(&v, from, i);
        let ghost before = out@;
        out.push(piece);
        assert(views(out@) =~= views(before).push(piece@));
        if i == v.len() {
            assert(views(out@) =~= views(before) + split_from(v@, c, from as int));
            return out;
        }
        assert(views(out@) + split_from(v@, c, i + 1) =~= views(before) + split_from(
            v@,
            c,
            from as int,
        ));
        from = i + 1;
    }
}

/// A line without the carriage return that precedes its line feed.
pub open spec fn strip_cr(s: Seq<char>) -> Seq<char> {
    if s.len() > 0 && s.last() == '\r' {
        s.drop_last()
    } else {
        s
    }
}

/// The lines of `s[from..]`.
pub open spec fn lines_from(s: Seq<char>, from: int) -> Seq<Seq<char>>
    decreases s.len() - from,
{
    let i = find(s, '\n', from);
    if from < 0 || from >= s.len() {
        Seq::empty()
    } else if i >= s.len() || i < from {
        seq![s.subrange(from, s.len() as int)]
    } else {
        seq![strip_cr(s.subrange(from, i))] + lines_from(s, i + 1)
    }
}

/// The lines of a text: each ends at a line feed, which with a carriage
/// return before it is not part of the line; the last needs no line feed.
pub open spec fn lines_of(s: Seq<char>) -> Seq<Seq<char>> {
    lines_from(s, 0)
}

/// The lines of a text.
pub fn lines(s: &str) -> (r: Vec<String>)
    ensures
        views(r@) == lines_of(s@),
{
    let v = to_chars(s);
    let mut out: Vec<String> = Vec::new();
    let mut from: usize = 0;
    assert(views(out@) + lines_from(v@, 0) =~= lines_of(v@));
    while from < v.len()
        invariant
            v@ == s@,
            from <= v.len(),
            views(out@) + lines_from(v@, from as int) == lines_of(v@),
        decreases v.len() - from,
    {
        let i = find_char(&v, '\n', from);
        let ghost before = out@;
        if i == v.len() {
            let piece = from_range(&v, from, i);
            out.push(piece);
            assert(views(out@) =~= views(before).push(piece@));
            assert(views(out@) =~= views(before) + lines_from(v@, from as int));
            return out;
        }
        let end: usize = if i > from && v[i - 1] == '\r' {
            i - 1
        } else {
            i
        };
        let piece = from_range(&v, from, end);
        assert(piece@ =~= strip_cr(v@.subrange(from as int, i as int)));
        out.push(piece);
        assert(views(out@) =~= views(before).push(piece@));
        assert(views(out@) + lines_from(v@, i + 1) =~= views(before) + lines_from(v@, from as int));
        from = i + 1;
    }
    assert(views(out@) + lines_from(v@, from as int) =~= views(out@));
    out
}

/// The characters that Unicode calls white space.
pub open spec fn is_space(c: char) -> bool {
    let n = c as u32;
    9 <= n <= 13 || n == 0x20 || n == 0x85 || n == 0xA0 || n == 0x1680 || 0x2000 <= n <= 0x200A || n
        == 0x2028 || n == 0x2029 || n == 0x202F || n == 0x205F || n == 0x3000
}

/// Whether Unicode calls the character white space.
pub fn white(c: char) -> (r: bool)
    ensures
        r == is_space(c),
{
    let n: u32 = c as u32;
    (9 <= n && n <= 13) || n == 0x20 || n == 0x85 || n == 0xA0 || n == 0x1680 || (0x2000 <= n && n
        <= 0x200A) || n == 0x2028 || n == 0x2029 || n == 0x202F || n == 0x205F || n == 0x3000
}

/// The first place at or after `i` that holds no white space, or the length.
pub open spec fn skip_space(s: Seq<char>, i: int) -> int
    decreases s.len() - i,
{
    if i < 0 || i >= s.len() {
        s.len() as int
    } else if is_space(s[i]) {
        skip_space(s, i + 1)
    } else {
        i
    }
}

/// The first place at or after `i` that holds white space, or the length.
pub open spec fn skip_word(s: Seq<char>, i: int) -> int
    decreases s.len() - i,
{
    if i < 0 || i >= s.len() {
        s.len() as int
    } else if is_space(s[i]) {
        i
    } else {
        skip_word(s, i + 1)
    }
}

/// Where `s[from..to]` ends once its trailing white space is gone.
pub open spec fn drop_space(s: Seq<char>, from: int, to: int) -> int
    decreases to - from,
{
    if 0 <= from < to <= s.len() && is_space(s[to - 1]) {
        drop_space(s, from, to - 1)
    } else {
        to
    }
}

/// `s` without the white space at its two ends.
pub open spec fn trimmed(s: Seq<char>) -> Seq<char> {
    let i = skip_space(s, 0);
    s.subrange(i, drop_space(s, i, s.len() as int))
}

fn space_end(v: &Vec<char>, from: usize) -> (i: usize)
    requires
        from <= v.len(),
    ensures
        i == skip_space(v@, from as int),
        from <= i <= v.len(),
        i < v.len() ==> !is_space(v@[i as int]),
{
    let mut i: usize = from;
    while i < v.len() && white(v[i])
        invariant
            from <= i <= v.len(),
            skip_space(v@, from as int) == skip_space(v@, i as int),
        decreases v.len() - i,
    {
        i += 1;
    }
    i
}

fn word_end(v: &Vec<char>, from: usize) -> (i: usize)
    requires
        from <= v.len(),
    ensures
        i == skip_word(v@, from as int),
        from <= i <= v.len(),
        from < v.len() && !is_space(v@[from as int]) ==> from < i,
{
    let mut i: usize = from;
    while i < v.len() && !white(v[i])
        invariant
            from <= i <= v.len(),
            skip_word(v@, from as int) == skip_word(v@, i as int),
        decreases v.len() - i,
    {
        i += 1;
    }
    i
}

/// `s` without the white space at its two ends.
pub fn trim(s: &str) -> (r: String)
    ensures
        r@ == trimmed(s@),
{
    let v = to_chars(s);
    let i = space_end(&v, 0);
    let mut j: usize = v.len();
    while j > i && white(v[j - 1])
        invariant
            i <= j <= v.len(),
            drop_space(v@, i as int, v@.len() as int) == drop_space(v@, i as int, j as int),
        decreases j,
    {
        j -= 1;
    }
    from_range(&v, i, j)
}

/// The words of `s[from..]`: what white space separates.
pub open spec fn words_from(s: Seq<char>, from: int) -> Seq<Seq<char>>
    decreases s.len() - from,
{
    let i = skip_space(s, from);
    let j = skip_word(s, i);
    if from < 0 || from >= s.len() || i >= s.len() || j <= from || j > s.len() {
        Seq::empty()
    } else {
        seq![s.subrange(i, j)] + words_from(s, j)
    }
}

/// The words of a text: what white space separates.
pub open spec fn words_of(s: Seq<char>) -> Seq<Seq<char>> {
    words_from(s, 0)
}

/// The words of a text.
pub fn words(s: &str) -> (r: Vec<String>)
    ensures
        views(r@) == words_of(s@),
{
    let v = to_chars(s);
    let mut out: Vec<String> = Vec::new();
    let mut from: usize = 0;
    assert(views(out@) + words_from(v@, 0) =~= words_of(v@));
    loop
        invariant
            v@ == s@,
            from <= v.len(),
            views(out@) + words_from(v@, from as int) == words_of(v@),
        decreases v.len() - from,
    {
        let i = space_end(&v, from);
        if i == v.len() {
            assert(views(out@) + words_from(v@, from as int) =~= views(out@));
            return out;
        }
        let j = word_end(&v, i);
        let piece = from_range(&v, i, j);
        let ghost before = out@;
        out.push(piece);
        assert(views(out@) =~= views(before).push(piece@));
        assert(views(out@) + words_from(v@, j as int) =~= views(before) + words_from(
            v@,
            from as int,
        ));
        from = j;
    }
}

/// What stands before and after the first `c`, when `s` holds one.
pub open spec fn halves(s: Seq<char>, c: char) -> Option<(Seq<char>, Seq<char>)> {
    let i = find(s, c, 0);
    if i >= s.len() {
        None
    } else {
        Some((s.subrange(0, i), s.subrange(i + 1, s.len() as int)))
    }
}

/// What stands before and after the first `c`, when `s` holds one.
pub fn split_once(s: &str, c: char) -> (r: Option<(String, String)>)
    ensures
        match r {
            Some(p) => halves(s@, c) == Some((p.0@, p.1@)),
            None => halves(s@, c) is None,
        },
{
    let v = to_chars(s);
    let i = find_char(&v, c, 0);
    if i == v.len() {
        None
    } else {
        Some((from_range(&v, 0, i), from_range(&v, i + 1, v.len())))
    }
}

/// The pieces of a list, `sep` between each two.
pub open spec fn joined(parts: Seq<Seq<char>>, sep: Seq<char>) -> Seq<char>
    decreases parts.len(),
{
    if parts.len() == 0 {
        Seq::empty()
    } else if parts.len() == 1 {
        parts[0]
    } else {
        joined(parts.drop_last(), sep) + sep + parts.last()
    }
}

/// The pieces of a list, `sep` between each two.
pub fn join(parts: &Vec<String>, sep: &str) -> (r: String)
    ensures
        r@ == joined(views(parts@), sep@),
{
    let mut s = String::new();
    let mut i: usize = 0;
    while i < parts.len()
        invariant
            i <= parts.len(),
            s@ == joined(views(parts@.subrange(0, i as int)), sep@),
        decreases parts.len() - i,
    {
        let ghost head = views(parts@.subrange(0, i as int));
        let ghost next = views(parts@.subrange(0, i + 1));
        assert(next.drop_last() =~= head);
        assert(next.last() == parts@[i as int]@);
        if i > 0 {
            s.append(sep);
        }
        s.append(parts[i].as_str());
        assert(s@ =~= joined(next, sep@));
        i += 1;
    }
    assert(parts@.subrange(0, parts@.len() as int) =~= parts@);
    s
}

// ---------------------------------------------------------------------------
// Reading numbers
// ---------------------------------------------------------------------------

/// Whether the character is a decimal digit.
pub open spec fn is_digit(c: char) -> bool {
    '0' <= c && c <= '9'
}

/// Whether there are only decimal digits.
pub open spec fn all_digits(s: Seq<char>) -> bool {
    forall|i: int| 0 <= i < s.len() ==> is_digit(#[trigger] s[i])
}

/// The number that decimal digits stand for.
pub open spec fn value(s: Seq<char>) -> nat
    decreases s.len(),
{
    if s.len() == 0 {
        0
    } else {
        value(s.drop_last()) * 10 + (s.last() as nat - 48) as nat
    }
}

/// The digits of an unsigned number as written: one `+` may precede them.
pub open spec fn unsigned_digits(s: Seq<char>) -> Seq<char> {
    if s.len() > 0 && s[0] == '+' {
        s.subrange(1, s.len() as int)
    } else {
        s
    }
}

/// The unsigned number that `s` spells, when it spells one up to `max`.
pub open spec fn number(s: Seq<char>, max: nat) -> Option<nat> {
    let d = unsigned_digits(s);
    if d.len() > 0 && all_digits(d) && value(d) <= max {
        Some(value(d))
    } else {
        None
    }
}

proof fn lemma_value_grows(s: Seq<char>, i: int)
    requires
        0 <= i <= s.len(),
    ensures
        value(s.subrange(0, i)) <= value(s),
    decreases s.len(),
{
    if i == s.len() {
        assert(s.subrange(0, i) =~= s);
    } else {
        lemma_value_grows(s.drop_last(), i);
        assert(s.drop_last().subrange(0, i) =~= s.subrange(0, i));
    }
}

/// The number that `s` spells, when it spells one of 64 bits.
pub fn parse_u64(s: &str) -> (r: Option<u64>)
    ensures
        match r {
            Some(n) => number(s@, u64::MAX as nat) == Some(n as nat),
            None => number(s@, u64::MAX as nat) is None,
        },
{
    let v = to_chars(s);
    let start: usize = if v.len() > 0 && v[0] == '+' {
        1
    } else {
        0
    };
    let ghost d = unsigned_digits(s@);
    assert(d =~= v@.subrange(start as int, v@.len() as int));
    if start == v.len() {
        return None;
    }
    let mut n: u64 = 0;
    let mut i: usize = start;
    assert(d.subrange(0, 0) =~= Seq::empty());
    while i < v.len()
        invariant
            v@ == s@,
            start <= i <= v.len(),
            start < v.len(),
            d == unsigned_digits(s@),
            d == v@.subrange(start as int, v@.len() as int),
            all_digits(d.subrange(0, i - start)),
            n == value(d.subrange(0, i - start)),
        decreases v.len() - i,
    {
        let c = v[i];
        assert(d[i - start] == c);
        if !('0' <= c && c <= '9') {
            assert(!all_digits(d));
            return None;
        }
        let k: u64 = (c as u32 - 48) as u64;
        let ghost next = d.subrange(0, i + 1 - start);
        assert(next.drop_last() =~= d.subrange(0, i - start));
        assert(next.last() == c);
        assert(value(next) == n * 10 + k);
        proof {
            lemma_value_grows(d, i + 1 - start);
        }
        if n > (u64::MAX - k) / 10 {
            assert(value(next) > u64::MAX) by (nonlinear_arith)
                requires
                    n > (u64::MAX - k) / 10,
                    k <= 9,
                    value(next) == n * 10 + k,
            ;
            return None;
        }
        n = n * 10 + k;
        assert forall|j: int| 0 <= j < next.len() implies is_digit(#[trigger] next[j]) by {
            if j < i - start {
                assert(d.subrange(0, i - start)[j] == next[j]);
            }
        }
        i += 1;
    }
    assert(d.subrange(0, d.len() as int) =~= d);
    Some(n)
}

/// The number that `s` spells, when it spells one of 32 bits.
pub fn parse_u32(s: &str) -> (r: Option<u32>)
    ensures
        match r {
            Some(n) => number(s@, u32::MAX as nat) == Some(n as nat),
            None => number(s@, u32::MAX as nat) is None,
        },
{
    match parse_u64(s) {
        Some(n) if n <= u32::MAX as u64 => Some(n as u32),
        _ => None,
    }
}

/// The number that `s` spells, when it spells one of 16 bits.
pub fn parse_u16(s: &str) -> (r: Option<u16>)
    ensures
        match r {
            Some(n) => number(s@, u16::MAX as nat) == Some(n as nat),
            None => number(s@, u16::MAX as nat) is None,
        },
{
    match parse_u64(s) {
        Some(n) if n <= u16::MAX as u64 => Some(n as u16),
        _ => None,
    }
}

/// The number that `s` spells, when it spells one of 8 bits.
pub fn parse_u8(s: &str) -> (r: Option<u8>)
    ensures
        match r {
            Some(n) => number(s@, u8::MAX as nat) == Some(n as nat),
            None => number(s@, u8::MAX as nat) is None,
        },
{
    match parse_u64(s) {
        Some(n) if n <= u8::MAX as u64 => Some(n as u8),
        _ => None,
    }
}

// ---------------------------------------------------------------------------
// The order of names
// ---------------------------------------------------------------------------

/// The order in which names are listed: character by character, a name
/// before each longer one that it begins.
pub open spec fn precedes(a: Seq<char>, b: Seq<char>) -> bool
    decreases a.len(),
{
    if b.len() == 0 {
        false
    } else if a.len() == 0 {
        true
    } else if a[0] != b[0] {
        a[0] < b[0]
    } else {
        precedes(a.drop_first(), b.drop_first())
    }
}

/// No name precedes itself.
pub proof fn lemma_precedes_irreflexive(a: Seq<char>)
    ensures
        !precedes(a, a),
    decreases a.len(),
{
    if a.len() > 0 {
        lemma_precedes_irreflexive(a.drop_first());
    }
}

/// Of two different names one precedes the other.
pub proof fn lemma_precedes_total(a: Seq<char>, b: Seq<char>)
    ensures
        a == b || precedes(a, b) || precedes(b, a),
        !(precedes(a, b) && precedes(b, a)),
    decreases a.len(),
{
    if a.len() > 0 && b.len() > 0 && a[0] == b[0] {
        lemma_precedes_total(a.drop_first(), b.drop_first());
        if a.drop_first() == b.drop_first() {
            assert(a =~= seq![a[0]] + a.drop_first());
            assert(b =~= seq![b[0]] + b.drop_first());
        }
    } else if a.len() == 0 && b.len() == 0 {
        assert(a =~= b);
    }
}

/// The order is transitive.
pub proof fn lemma_precedes_transitive(a: Seq<char>, b: Seq<char>, c: Seq<char>)
    requires
        precedes(a, b),
        precedes(b, c),
    ensures
        precedes(a, c),
    decreases a.len(),
{
    if a.len() > 0 && a[0] == b[0] && b[0] == c[0] {
        lemma_precedes_transitive(a.drop_first(), b.drop_first(), c.drop_first());
    }
}

/// What does not come later stays so over a third name.
pub proof fn lemma_not_precedes_transitive(a: Seq<char>, b: Seq<char>, c: Seq<char>)
    requires
        !precedes(b, a),
        !precedes(c, b),
    ensures
        !precedes(c, a),
        precedes(a, b) || precedes(b, c) ==> precedes(a, c),
{
    lemma_precedes_total(a, b);
    lemma_precedes_total(b, c);
    lemma_precedes_total(a, c);
    lemma_precedes_irreflexive(a);
    if precedes(a, b) && precedes(b, c) {
        lemma_precedes_transitive(a, b, c);
    }
}

/// Whether `a` is listed before `b`.
pub fn before(a: &str, b: &str) -> (r: bool)
    ensures
        r == precedes(a@, b@),
{
    let v = to_chars(a);
    let w = to_chars(b);
    let mut i: usize = 0;
    assert(v@.skip(0) =~= v@);
    assert(w@.skip(0) =~= w@);
    while i < v.len() && i < w.len()
        invariant
            v@ == a@,
            w@ == b@,
            i <= v.len(),
            i <= w.len(),
            precedes(v@, w@) == precedes(v@.skip(i as int), w@.skip(i as int)),
        decreases v.len() - i,
    {
        let ghost p = v@.skip(i as int);
        let ghost q = w@.skip(i as int);
        assert(p[0] == v@[i as int] && q[0] == w@[i as int]);
        if v[i] != w[i] {
            return v[i] < w[i];
        }
        assert(p.drop_first() =~= v@.skip(i + 1));
        assert(q.drop_first() =~= w@.skip(i + 1));
        i += 1;
    }
    i < w.len()
}

/// The first place at or after `from` that holds a word, or the length.
pub open spec fn word_at(words: Seq<Seq<char>>, w: Seq<char>, from: int) -> int
    decreases words.len() - from,
{
    if from < 0 || from >= words.len() {
        words.len() as int
    } else if words[from] == w {
        from
    } else {
        word_at(words, w, from + 1)
    }
}

/// The first place at or after `from` that holds a word, or the length.
pub fn find_word(words: &Vec<String>, w: &str, from: usize) -> (i: usize)
    requires
        from <= words.len(),
    ensures
        i == word_at(views(words@), w@, from as int),
        from <= i <= words.len(),
{
    let mut i: usize = from;
    while i < words.len()
        invariant
            from <= i <= words.len(),
            word_at(views(words@), w@, from as int) == word_at(
                views(words@),
                w@,
                i as int,
            ),
        decreases words.len() - i,
    {
        assert(views(words@)[i as int] == words@[i as int]@);
        if same(&words[i], w) {
            return i;
        }
        i += 1;
    }
    i
}

/// What a word's place says of the words.
pub proof fn lemma_word_at(words: Seq<Seq<char>>, w: Seq<char>, from: int)
    requires
        0 <= from <= words.len(),
    ensures
        word_at(words, w, from) < words.len() ==> words.contains(w),
        word_at(words, w, from) >= words.len() ==> forall|k: int|
            from <= k < words.len() ==> words[k] != w,
    decreases words.len() - from,
{
    if from < words.len() {
        if words[from] != w {
            lemma_word_at(words, w, from + 1);
        }
    }
}

// ---------------------------------------------------------------------------
// Laws
// ---------------------------------------------------------------------------

/// Law: a number that is written is read back, and is written without zeros in
/// front.
pub proof fn law_a_number_is_read_back(n: nat)
    ensures
        all_digits(dec(n)),
        value(dec(n)) == n,
        n > 0 ==> dec(n)[0] != '0',
        dec(0) == seq!['0'],
        forall|max: nat| #[trigger]
            number(dec(n), max) == (if n <= max {
                Some(n)
            } else {
                None
            }),
    decreases n,
{
    lemma_dec(n);
    if n < 10 {
        assert(dec(n) =~= seq![digit(n)]);
        assert(dec(n).drop_last() =~= Seq::empty());
        assert(value(dec(n).drop_last()) == 0);
        assert(dec(n).last() == digit(n));
    } else {
        law_a_number_is_read_back(n / 10);
        assert(dec(n).drop_last() =~= dec(n / 10));
        assert(dec(n).last() == digit(n % 10));
        assert forall|i: int| 0 <= i < dec(n).len() implies is_digit(#[trigger] dec(n)[i]) by {
            if i < dec(n / 10).len() {
                assert(dec(n)[i] == dec(n / 10)[i]);
            }
        }
        assert(dec(n)[0] == dec(n / 10)[0]);
    }
    assert(dec(n)[0] != '+') by {
        assert(is_digit(dec(n)[0]));
    }
    assert(unsigned_digits(dec(n)) == dec(n));
}

/// Law: the pieces of a text, joined again, are the text, and none of them
/// holds what it was split at.
pub proof fn law_pieces_joined_are_the_text(s: Seq<char>, c: char)
    ensures
        split(s, c).len() > 0,
        joined(split(s, c), seq![c]) == s,
        forall|i: int| 0 <= i < split(s, c).len() ==> !(#[trigger] split(s, c)[i]).contains(c),
{
    lemma_split(s, c, 0);
    assert(s.subrange(0, s.len() as int) =~= s);
}

proof fn lemma_split(s: Seq<char>, c: char, from: int)
    requires
        0 <= from <= s.len(),
    ensures
        split_from(s, c, from).len() > 0,
        joined(split_from(s, c, from), seq![c]) == s.subrange(from, s.len() as int),
        forall|i: int|
            0 <= i < split_from(s, c, from).len() ==> !(#[trigger] split_from(s, c, from)[i]).contains(
                c,
            ),
    decreases s.len() - from,
{
    let i = find(s, c, from);
    lemma_find(s, c, from);
    let all = split_from(s, c, from);
    if i < s.len() {
        lemma_split(s, c, i + 1);
        let rest = split_from(s, c, i + 1);
        assert(all == seq![s.subrange(from, i)] + rest);
        law_joined_in_two(seq![s.subrange(from, i)], rest, seq![c]);
        assert(s.subrange(from, i) + seq![c] + s.subrange(i + 1, s.len() as int) =~= s.subrange(
            from,
            s.len() as int,
        ));
        assert forall|k: int| 0 <= k < all.len() implies !(#[trigger] all[k]).contains(c) by {
            if k > 0 {
                assert(all[k] == rest[k - 1]);
            }
        }
    } else {
        assert(all == seq![s.subrange(from, s.len() as int)]);
    }
}

/// Law: what is joined is the parts in order with the separator between them:
/// one part is itself, and two lists of parts are joined as each of them is,
/// with one separator between.
pub proof fn law_joined_in_two(a: Seq<Seq<char>>, b: Seq<Seq<char>>, sep: Seq<char>)
    ensures
        a.len() > 0 && b.len() > 0 ==> joined(a + b, sep) == joined(a, sep) + sep + joined(b, sep),
        a.len() == 1 ==> joined(a, sep) == a[0],
        joined(Seq::empty(), sep) == Seq::<char>::empty(),
    decreases b.len(),
{
    if a.len() > 0 && b.len() > 0 {
        assert((a + b).last() == b.last());
        assert((a + b).drop_last() =~= a + b.drop_last());
        if b.len() == 1 {
            assert(a + b.drop_last() =~= a);
        } else {
            law_joined_in_two(a, b.drop_last(), sep);
            assert(joined(a, sep) + sep + joined(b.drop_last(), sep) + sep + b.last() =~= joined(
                a,
                sep,
            ) + sep + (joined(b.drop_last(), sep) + sep + b.last()));
        }
    }
}

/// Law: a text that begins with a line gives that line first, without its end,
/// and then the lines of the rest; one without any line end is one line, and
/// nothing is no line.
pub proof fn law_lines_come_one_by_one(line: Seq<char>, rest: Seq<char>)
    requires
        !line.contains('\n'),
    ensures
        lines_of(line + seq!['\n'] + rest) == seq![strip_cr(line)] + lines_of(rest),
        line.len() > 0 ==> lines_of(line) == seq![line],
        lines_of(Seq::empty()) == Seq::<Seq<char>>::empty(),
        line.len() > 0 && line.last() == '\r' ==> strip_cr(line) == line.drop_last(),
        line.len() == 0 || line.last() != '\r' ==> strip_cr(line) == line,
{
    let s = line + seq!['\n'] + rest;
    lemma_find(s, '\n', 0);
    let i = find(s, '\n', 0);
    assert(s[line.len() as int] == '\n');
    assert(i == line.len()) by {
        if i < line.len() {
            assert(line[i] == '\n');
        }
    }
    assert(s.subrange(0, i) =~= line);
    assert(rest =~= s.subrange(i + 1, s.len() as int));
    lemma_lines_shift(s, rest, i + 1, 0);
    assert(lines_from(s, 0) == seq![strip_cr(line)] + lines_from(s, i + 1));
    lemma_find(line, '\n', 0);
    assert(line.subrange(0, line.len() as int) =~= line);
}

proof fn lemma_lines_shift(s: Seq<char>, rest: Seq<char>, by: int, from: int)
    requires
        0 <= by <= s.len(),
        rest == s.subrange(by, s.len() as int),
        0 <= from <= rest.len(),
    ensures
        lines_from(s, by + from) == lines_from(rest, from),
    decreases rest.len() - from,
{
    if from < rest.len() {
        lemma_find(s, '\n', by + from);
        lemma_find(rest, '\n', from);
        let i = find(s, '\n', by + from);
        let j = find(rest, '\n', from);
        assert(i == by + j) by {
            if i < by + j {
                assert(rest[i - by] == '\n');
            }
            if by + j < i {
                assert(s[by + j] == '\n');
            }
        }
        if j < rest.len() {
            assert(s.subrange(by + from, i) =~= rest.subrange(from, j));
            lemma_lines_shift(s, rest, by, j + 1);
        } else {
            assert(s.subrange(by + from, s.len() as int) =~= rest.subrange(
                from,
                rest.len() as int,
            ));
        }
    }
}

/// Law: a text is trimmed of the spaces around it and of nothing else.
pub proof fn law_only_space_is_trimmed(s: Seq<char>)
    ensures
        exists|i: int, j: int|
            #![trigger s.subrange(i, j)]
            0 <= i <= j <= s.len() && trimmed(s) == s.subrange(i, j) && (forall|k: int|
                0 <= k < s.len() && !(i <= k < j) ==> is_space(#[trigger] s[k])),
        trimmed(s).len() > 0 ==> !is_space(trimmed(s)[0]) && !is_space(trimmed(s).last()),
{
    lemma_skip_space(s, 0);
    let i = skip_space(s, 0);
    lemma_drop_space(s, i, s.len() as int);
    let j = drop_space(s, i, s.len() as int);
    assert(trimmed(s) == s.subrange(i, j));
    assert forall|k: int| 0 <= k < s.len() && !(i <= k < j) implies is_space(#[trigger] s[k]) by {
    }
}

/// Where the space from `i` on ends.
pub proof fn lemma_skip_space(s: Seq<char>, i: int)
    requires
        0 <= i <= s.len(),
    ensures
        i <= skip_space(s, i) <= s.len(),
        forall|k: int| i <= k < skip_space(s, i) ==> is_space(#[trigger] s[k]),
        skip_space(s, i) < s.len() ==> !is_space(s[skip_space(s, i)]),
    decreases s.len() - i,
{
    if i < s.len() && is_space(s[i]) {
        lemma_skip_space(s, i + 1);
    }
}

proof fn lemma_skip_word(s: Seq<char>, i: int)
    requires
        0 <= i <= s.len(),
    ensures
        i <= skip_word(s, i) <= s.len(),
        forall|k: int| i <= k < skip_word(s, i) ==> !is_space(#[trigger] s[k]),
        skip_word(s, i) < s.len() ==> is_space(s[skip_word(s, i)]),
    decreases s.len() - i,
{
    if i < s.len() && !is_space(s[i]) {
        lemma_skip_word(s, i + 1);
    }
}

proof fn lemma_drop_space(s: Seq<char>, from: int, to: int)
    requires
        0 <= from <= to <= s.len(),
    ensures
        from <= drop_space(s, from, to) <= to,
        forall|k: int| drop_space(s, from, to) <= k < to ==> is_space(#[trigger] s[k]),
        drop_space(s, from, to) > from ==> !is_space(s[drop_space(s, from, to) - 1]),
    decreases to - from,
{
    if from < to && is_space(s[to - 1]) {
        lemma_drop_space(s, from, to - 1);
    }
}

/// Law: a text that begins with a word gives that word first, and then the
/// words of the rest; what is nothing but space holds no word.
pub proof fn law_words_come_one_by_one(
    gap: Seq<char>,
    word: Seq<char>,
    space: char,
    rest: Seq<char>,
)
    requires
        forall|i: int| 0 <= i < gap.len() ==> is_space(#[trigger] gap[i]),
        forall|i: int| 0 <= i < word.len() ==> !is_space(#[trigger] word[i]),
        word.len() > 0,
        is_space(space),
    ensures
        words_of(gap + word + seq![space] + rest) == seq![word] + words_of(rest),
        words_of(gap + word) == seq![word],
        words_of(gap) == Seq::<Seq<char>>::empty(),
{
    let s = gap + word + seq![space] + rest;
    let g = gap.len() as int;
    let w = word.len() as int;
    lemma_skip_space(s, 0);
    assert(s[g] == word[0]);
    assert(skip_space(s, 0) == g) by {
        let i = skip_space(s, 0);
        if i < g {
            assert(s[i] == gap[i]);
        }
    }
    lemma_skip_word(s, g);
    assert(s[g + w] == space);
    assert(skip_word(s, g) == g + w) by {
        let j = skip_word(s, g);
        if j < g + w {
            assert(s[j] == word[j - g]);
        }
    }
    assert(s.subrange(g, g + w) =~= word);
    assert(words_from(s, 0) == seq![word] + words_from(s, g + w));
    lemma_words_skip(s, g + w);
    assert(rest =~= s.subrange(g + w + 1, s.len() as int));
    lemma_words_shift(s, rest, g + w + 1, 0);
    let t = gap + word;
    lemma_skip_space(t, 0);
    assert(t[g] == word[0]);
    assert(skip_space(t, 0) == g) by {
        let i = skip_space(t, 0);
        if i < g {
            assert(t[i] == gap[i]);
        }
    }
    lemma_skip_word(t, g);
    assert(skip_word(t, g) == g + w) by {
        let j = skip_word(t, g);
        if j < g + w {
            assert(t[j] == word[j - g]);
        }
    }
    assert(t.subrange(g, g + w) =~= word);
    assert(words_from(t, g + w) =~= Seq::<Seq<char>>::empty());
    assert(words_of(t) =~= seq![word]);
    lemma_skip_space(gap, 0);
    assert(skip_space(gap, 0) == gap.len()) by {
        let i = skip_space(gap, 0);
        if i < gap.len() {
            assert(is_space(gap[i]));
        }
    }
    assert(words_of(gap) =~= Seq::<Seq<char>>::empty());
}

proof fn lemma_words_skip(s: Seq<char>, i: int)
    requires
        0 <= i < s.len(),
        is_space(s[i]),
    ensures
        words_from(s, i) == words_from(s, i + 1),
{
    lemma_skip_space(s, i);
    lemma_skip_space(s, i + 1);
    assert(skip_space(s, i) == skip_space(s, i + 1));
    lemma_skip_word(s, skip_space(s, i));
    if i + 1 == s.len() {
        assert(words_from(s, i) =~= Seq::<Seq<char>>::empty());
    }
}

proof fn lemma_words_shift(s: Seq<char>, rest: Seq<char>, by: int, from: int)
    requires
        0 <= by <= s.len(),
        rest == s.subrange(by, s.len() as int),
        0 <= from <= rest.len(),
    ensures
        words_from(s, by + from) == words_from(rest, from),
    decreases rest.len() - from,
{
    if from < rest.len() {
        lemma_skip_space(s, by + from);
        lemma_skip_space(rest, from);
        let i = skip_space(s, by + from);
        let p = skip_space(rest, from);
        assert(i == by + p) by {
            if i < by + p {
                assert(s[i] == rest[i - by]);
                assert(is_space(rest[i - by]));
            }
            if by + p < i {
                assert(s[by + p] == rest[p]);
                assert(is_space(s[by + p]));
            }
        }
        if p < rest.len() {
            lemma_skip_word(s, i);
            lemma_skip_word(rest, p);
            let j = skip_word(s, i);
            let q = skip_word(rest, p);
            assert(j == by + q) by {
                if j < by + q {
                    assert(s[j] == rest[j - by]);
                    assert(!is_space(rest[j - by]));
                }
                if by + q < j {
                    assert(s[by + q] == rest[q]);
                    assert(!is_space(s[by + q]));
                }
            }
            assert(q > p) by {
                if q == p {
                    assert(is_space(rest[p]));
                }
            }
            assert(s.subrange(i, j) =~= rest.subrange(p, q));
            lemma_words_shift(s, rest, by, q);
        }
    }
}

/// Law: a text is cut at the first place that holds the character: what comes
/// before does not hold it, and the two halves with it between are the text.
pub proof fn law_halves_are_around_the_first(s: Seq<char>, c: char)
    ensures
        match halves(s, c) {
            Some((l, r)) => !l.contains(c) && l + seq![c] + r == s,
            None => !s.contains(c),
        },
{
    lemma_find(s, c, 0);
    let i = find(s, c, 0);
    if i < s.len() {
        let l = s.subrange(0, i);
        assert(l + seq![c] + s.subrange(i + 1, s.len() as int) =~= s);
        assert(!l.contains(c)) by {
            if l.contains(c) {
                let k = choose|k: int| 0 <= k < l.len() && l[k] == c;
                assert(s[k] == c);
            }
        }
    } else if s.contains(c) {
        let k = choose|k: int| 0 <= k < s.len() && s[k] == c;
        assert(s[k] == c);
    }
}

/// Law: names are listed as in a dictionary: one comes before another where it
/// is the beginning of it, or where the first character in which they differ
/// is the lesser.
pub proof fn law_names_are_listed_by_character(a: Seq<char>, b: Seq<char>)
    ensures
        precedes(a, b) <==> exists|k: int|
            {
                &&& 0 <= k <= a.len()
                &&& k < b.len()
                &&& #[trigger] a.subrange(0, k) == b.subrange(0, k)
                &&& k == a.len() || a[k] < b[k]
            },
    decreases a.len(),
{
    if b.len() > 0 {
        if a.len() == 0 {
            assert(a.subrange(0, 0) =~= b.subrange(0, 0));
        } else if a[0] != b[0] {
            if a[0] < b[0] {
                assert(a.subrange(0, 0) =~= b.subrange(0, 0));
            }
            if exists|k: int|
                0 <= k <= a.len() && k < b.len() && #[trigger] a.subrange(0, k) == b.subrange(0, k)
                    && (k == a.len() || a[k] < b[k]) {
                let k = choose|k: int|
                    0 <= k <= a.len() && k < b.len() && #[trigger] a.subrange(0, k) == b.subrange(
                        0,
                        k,
                    ) && (k == a.len() || a[k] < b[k]);
                if k > 0 {
                    assert(a.subrange(0, k)[0] == b.subrange(0, k)[0]);
                }
            }
        } else {
            let x = a.drop_first();
            let y = b.drop_first();
            law_names_are_listed_by_character(x, y);
            if precedes(x, y) {
                let k = choose|k: int|
                    0 <= k <= x.len() && k < y.len() && #[trigger] x.subrange(0, k) == y.subrange(
                        0,
                        k,
                    ) && (k == x.len() || x[k] < y[k]);
                assert(a.subrange(0, k + 1) =~= seq![a[0]] + x.subrange(0, k));
                assert(b.subrange(0, k + 1) =~= seq![b[0]] + y.subrange(0, k));
            }
            if exists|k: int|
                0 <= k <= a.len() && k < b.len() && #[trigger] a.subrange(0, k) == b.subrange(0, k)
                    && (k == a.len() || a[k] < b[k]) {
                let k = choose|k: int|
                    0 <= k <= a.len() && k < b.len() && #[trigger] a.subrange(0, k) == b.subrange(
                        0,
                        k,
                    ) && (k == a.len() || a[k] < b[k]);
                assert(k > 0);
                assert(x.subrange(0, k - 1) =~= a.subrange(0, k).drop_first());
                assert(y.subrange(0, k - 1) =~= b.subrange(0, k).drop_first());
            }
        }
    }
}

/// Law: a text begins with another exactly when it is that one with something
/// behind it, and ends with it exactly when it is that one with something in
/// front.
pub proof fn law_beginnings_and_ends(s: Seq<char>, p: Seq<char>, q: Seq<char>)
    ensures
        begins(p + q, p),
        ends(q + p, p),
        begins(s, p) ==> s == p + s.subrange(p.len() as int, s.len() as int),
        ends(s, p) ==> s == s.subrange(0, s.len() - p.len()) + p,
{
    assert((p + q).subrange(0, p.len() as int) =~= p);
    assert((q + p).subrange(q.len() as int, (q + p).len() as int) =~= p);
    if begins(s, p) {
        assert(s =~= s.subrange(0, p.len() as int) + s.subrange(p.len() as int, s.len() as int));
    }
    if ends(s, p) {
        assert(s =~= s.subrange(0, s.len() - p.len()) + s.subrange(
            s.len() - p.len(),
            s.len() as int,
        ));
    }
}

/// Law: a number below zero is written with a sign before it, and any other
/// without.
pub proof fn law_a_sign_is_written_before_a_number(n: nat)
    ensures
        dec_int(n as int) == dec(n),
        n > 0 ==> dec_int(-(n as int)) == "-"@ + dec(n),
{
}

} // verus!
