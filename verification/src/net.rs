//! Addresses of four numbers, and the subnets they are in.
use crate::fabric::macos::two_to;
use crate::fabric::NodeAddress;
use crate::text;
use vstd::prelude::*;

verus! {

/// The number of one of the four parts: one to three digits, no zero in
/// front of others, at most 255.
pub open spec fn part(s: Seq<char>) -> Option<nat> {
    if 1 <= s.len() <= 3 && text::all_digits(s) && (s.len() > 1 ==> s[0] != '0') && text::value(s)
        <= 255 {
        Some(text::value(s))
    } else {
        None
    }
}

/// The number of 32 bits that an address of four parts stands for.
pub open spec fn quad(s: Seq<char>) -> Option<nat> {
    let p = text::split(s, '.');
    if p.len() == 4 {
        match (part(p[0]), part(p[1]), part(p[2]), part(p[3])) {
            (Some(a), Some(b), Some(c), Some(d)) => Some(
                ((a * 256 + b) * 256 + c) * 256 + d,
            ),
            _ => None,
        }
    } else {
        None
    }
}

fn read_part(s: &str) -> (r: Option<u32>)
    ensures
        match r {
            Some(n) => part(s@) == Some(n as nat) && n <= 255,
            None => part(s@) is None,
        },
{
    let v = text::to_chars(s);
    if v.len() == 0 || v.len() > 3 || v[0] == '+' || (v.len() > 1 && v[0] == '0') {
        return None;
    }
    assert(text::unsigned_digits(s@) == s@);
    match text::parse_u32(s) {
        Some(n) => if n <= 255 {
            Some(n)
        } else {
            None
        },
        None => {
            proof {
                if text::all_digits(s@) {
                    lemma_small(s@);
                }
            }
            None
        },
    }
}

proof fn lemma_small(s: Seq<char>)
    requires
        1 <= s.len() <= 3,
        text::all_digits(s),
    ensures
        text::value(s) <= 999,
{
    reveal_with_fuel(text::value, 4);
    let a = s.drop_last();
    assert(text::is_digit(s[s.len() - 1]));
    if s.len() > 1 {
        assert(a.last() == s[s.len() - 2]);
        assert(text::is_digit(s[s.len() - 2]));
        let b = a.drop_last();
        if s.len() > 2 {
            assert(b.last() == s[s.len() - 3]);
            assert(text::is_digit(s[s.len() - 3]));
        }
    }
}

/// Read an address of four parts.
pub fn read_quad(s: &str) -> (r: Option<u32>)
    ensures
        match r {
            Some(n) => quad(s@) == Some(n as nat),
            None => quad(s@) is None,
        },
{
    let p = text::split_on(s, '.');
    assert(text::views(p@).len() == p@.len());
    if p.len() != 4 {
        return None;
    }
    assert(text::views(p@)[0] == p@[0]@ && text::views(p@)[1] == p@[1]@ && text::views(p@)[2]
        == p@[2]@ && text::views(p@)[3] == p@[3]@);
    let a = match read_part(&p[0]) {
        Some(n) => n,
        None => return None,
    };
    let b = match read_part(&p[1]) {
        Some(n) => n,
        None => return None,
    };
    let c = match read_part(&p[2]) {
        Some(n) => n,
        None => return None,
    };
    let d = match read_part(&p[3]) {
        Some(n) => n,
        None => return None,
    };
    Some(((a * 256 + b) * 256 + c) * 256 + d)
}

/// Whether two numbers of 32 bits agree in their first `p` bits.
pub open spec fn same_front(a: nat, b: nat, p: nat) -> bool {
    p <= 32 && a / two_to((32 - p) as nat) == b / two_to((32 - p) as nat)
}

/// Whether two addresses are on one subnet: each is in the other's. An
/// address whose subnet is not known is on none.
pub open spec fn shares(a: NodeAddress, b: NodeAddress) -> bool {
    match (quad(a.addr@), quad(b.addr@)) {
        (Some(x), Some(y)) => a.prefix_len > 0 && b.prefix_len > 0 && same_front(
            x,
            y,
            a.prefix_len as nat,
        ) && same_front(x, y, b.prefix_len as nat),
        _ => false,
    }
}

proof fn lemma_two_to(n: nat)
    requires
        n <= 32,
    ensures
        0 < two_to(n) <= 0x1_0000_0000,
    decreases n,
{
    if n > 0 {
        lemma_two_to((n - 1) as nat);
        lemma_two_to_32(n);
    }
}

proof fn lemma_two_to_32(n: nat)
    requires
        n <= 32,
    ensures
        two_to(n) <= two_to(32),
        two_to(32) == 0x1_0000_0000,
    decreases 32 - n,
{
    assert(two_to(32) == 0x1_0000_0000) by {
        reveal_with_fuel(two_to, 33);
    }
    if n < 32 {
        lemma_two_to_32(n + 1);
        assert(two_to(n + 1) == 2 * two_to(n));
    }
}

fn power(n: u8) -> (r: u64)
    requires
        n <= 32,
    ensures
        r == two_to(n as nat),
        r > 0,
{
    let mut r: u64 = 1;
    let mut i: u8 = 0;
    while i < n
        invariant
            i <= n <= 32,
            r == two_to(i as nat),
            0 < r <= 0x1_0000_0000,
        decreases n - i,
    {
        proof {
            lemma_two_to((i + 1) as nat);
        }
        r = r * 2;
        i += 1;
    }
    r
}

fn agree(a: u32, b: u32, p: u8) -> (r: bool)
    ensures
        r == same_front(a as nat, b as nat, p as nat),
{
    if p > 32 {
        return false;
    }
    let d = power(32 - p);
    (a as u64) / d == (b as u64) / d
}

/// Whether two addresses are on one subnet.
pub fn on_one_subnet(a: &NodeAddress, b: &NodeAddress) -> (r: bool)
    ensures
        r == shares(*a, *b),
{
    if a.prefix_len == 0 || b.prefix_len == 0 {
        return false;
    }
    match read_quad(&a.addr) {
        Some(x) => match read_quad(&b.addr) {
            Some(y) => agree(x, y, a.prefix_len) && agree(x, y, b.prefix_len),
            None => false,
        },
        None => false,
    }
}

/// Law: an address is read as it is written: four numbers up to 255 with
/// points between them.
pub proof fn law_an_address_is_four_numbers(a: nat, b: nat, c: nat, d: nat)
    requires
        a <= 255,
        b <= 255,
        c <= 255,
        d <= 255,
    ensures
        quad(
            text::dec(a) + "."@ + text::dec(b) + "."@ + text::dec(c) + "."@ + text::dec(d),
        ) == Some(((a * 256 + b) * 256 + c) * 256 + d),
{
    reveal_strlit(".");
    lemma_part(a);
    lemma_part(b);
    lemma_part(c);
    lemma_part(d);
    let (x, y, z, w) = (text::dec(a), text::dec(b), text::dec(c), text::dec(d));
    let s = x + "."@ + y + "."@ + z + "."@ + w;
    assert(s =~= x + seq!['.'] + (y + seq!['.'] + (z + seq!['.'] + w)));
    lemma_first_piece(x, y + seq!['.'] + (z + seq!['.'] + w));
    lemma_first_piece(y, z + seq!['.'] + w);
    lemma_first_piece(z, w);
    lemma_one_piece(w);
    let p = text::split(s, '.');
    assert(p =~= seq![x, y, z, w]);
}

proof fn lemma_part(n: nat)
    requires
        n <= 255,
    ensures
        part(text::dec(n)) == Some(n),
        !text::dec(n).contains('.'),
{
    text::law_a_number_is_read_back(n);
    text::lemma_dec(n);
    reveal_with_fuel(text::dec, 4);
    if text::dec(n).contains('.') {
        let i = choose|i: int| 0 <= i < text::dec(n).len() && text::dec(n)[i] == '.';
        assert(text::is_digit(text::dec(n)[i]));
    }
}

proof fn lemma_one_piece(w: Seq<char>)
    requires
        !w.contains('.'),
    ensures
        text::split(w, '.') == seq![w],
{
    text::lemma_find(w, '.', 0);
    let i = text::find(w, '.', 0);
    if i < w.len() {
        assert(w[i] == '.');
    }
    assert(w.subrange(0, w.len() as int) =~= w);
}

proof fn lemma_first_piece(x: Seq<char>, rest: Seq<char>)
    requires
        !x.contains('.'),
    ensures
        text::split(x + seq!['.'] + rest, '.') == seq![x] + text::split(rest, '.'),
{
    let s = x + seq!['.'] + rest;
    text::lemma_find(s, '.', 0);
    let i = text::find(s, '.', 0);
    assert(s[x.len() as int] == '.');
    if i < x.len() {
        assert(x[i] == '.');
    }
    assert(s.subrange(0, i) =~= x);
    assert(s.subrange(i + 1, s.len() as int) =~= rest);
    lemma_split_shift(s, rest, i + 1, 0);
}

proof fn lemma_split_shift(s: Seq<char>, rest: Seq<char>, by: int, from: int)
    requires
        0 <= by <= s.len(),
        0 <= from <= rest.len(),
        s.subrange(by, s.len() as int) == rest,
    ensures
        text::split_from(s, '.', by + from) == text::split_from(rest, '.', from),
    decreases rest.len() - from,
{
    assert(s.len() == by + rest.len());
    assert forall|k: int| 0 <= k < rest.len() implies rest[k] == #[trigger] s[by + k] by {
    }
    text::lemma_find(s, '.', by + from);
    text::lemma_find(rest, '.', from);
    let i = text::find(s, '.', by + from);
    let j = text::find(rest, '.', from);
    if i - by < j {
        assert(rest[i - by] == s[by + (i - by)]);
    } else if j < i - by {
        assert(rest[j] == s[by + j]);
    }
    assert(i == by + j);
    if j < rest.len() {
        assert(s.subrange(by + from, i) =~= rest.subrange(from, j));
        lemma_split_shift(s, rest, by, j + 1);
    } else {
        assert(s.subrange(by + from, s.len() as int) =~= rest.subrange(from, rest.len() as int));
    }
}

/// Law: two addresses are on one subnet exactly where both are read, both know
/// how long their subnet's prefix is, and the two agree in the front bits of
/// the longer one; it does not matter which comes first.
pub proof fn law_a_subnet_is_shared_both_ways(a: NodeAddress, b: NodeAddress)
    ensures
        shares(a, b) == shares(b, a),
        quad(a.addr@) is None || a.prefix_len == 0 || a.prefix_len > 32 ==> !shares(a, b),
        quad(a.addr@) is Some && quad(a.addr@) == quad(b.addr@) && 0 < a.prefix_len <= 32 && 0
            < b.prefix_len <= 32 ==> shares(a, b),
        0 < a.prefix_len <= 32 && a.prefix_len == b.prefix_len ==> (quad(
            a.addr@,
        ) matches Some(x) ==> quad(b.addr@) matches Some(y) ==> (shares(a, b) <==> x / two_to(
            (32 - a.prefix_len) as nat,
        ) == y / two_to((32 - a.prefix_len) as nat))),
        two_to(0) == 1,
        two_to(8) == 256,
{
    reveal_with_fuel(two_to, 9);
}

} // verus!
