//! What Linux says of its links: the kernel's address list and the files it
//! keeps for each interface.
use crate::fabric::RawIface;
use crate::order::{arrange, arranged, Order};
use crate::text;
use vstd::prelude::*;

verus! {

/// Where the kernel exposes interfaces.
pub const NET_DIR: &'static str = "/sys/class/net";

/// Where the kernel exposes RDMA devices.
pub const IB_DIR: &'static str = "/sys/class/infiniband";

/// This machine's links, as Linux has them.
#[derive(Debug, Clone, Default)]
pub struct LinuxFabric;

impl LinuxFabric {
    /// A provider for the running machine.
    pub fn new() -> (r: Self)
        ensures
            r == LinuxFabric,
    {
        LinuxFabric
    }
}

/// The interface and the address that one line of the kernel's list names:
/// `1: lo    inet 127.0.0.1/8 scope host lo`.
pub open spec fn line_address(line: Seq<char>) -> Option<(Seq<char>, Seq<char>)> {
    let words = text::words_of(line);
    let first = text::word_at(words, "inet"@, 0);
    if words.len() >= 2 && text::word_at(words, "inet"@, 2) < words.len() && first + 1 < words.len() {
        Some((words[1], words[first + 1]))
    } else {
        None
    }
}

/// The addresses that the first `n` lines name, in order.
pub open spec fn listed_addresses(lines: Seq<Seq<char>>, n: int) -> Seq<(Seq<char>, Seq<char>)>
    decreases n,
{
    if n <= 0 {
        Seq::empty()
    } else {
        match line_address(lines[n - 1]) {
            Some(p) => listed_addresses(lines, n - 1).push(p),
            None => listed_addresses(lines, n - 1),
        }
    }
}

/// The IPv4 addresses of `ip -o -4 addr show`, each with its interface, as
/// `host/prefix`. The prefix is kept: it tells which of several
/// point-to-point links reaches a given peer.
pub fn addresses_by_interface(list: &str) -> (r: Vec<(String, String)>)
    ensures
        crate::bench::config::pair_views(r@) == listed_addresses(
            text::lines_of(list@),
            text::lines_of(list@).len() as int,
        ),
{
    let lines = text::lines(list);
    let mut out: Vec<(String, String)> = Vec::new();
    let mut i: usize = 0;
    assert(crate::bench::config::pair_views(out@) =~= Seq::empty());
    while i < lines.len()
        invariant
            i <= lines.len(),
            text::views(lines@) == text::lines_of(list@),
            crate::bench::config::pair_views(out@) == listed_addresses(
                text::lines_of(list@),
                i as int,
            ),
        decreases lines.len() - i,
    {
        assert(text::lines_of(list@)[i as int] == lines@[i as int]@) by {
            assert(text::views(lines@)[i as int] == lines@[i as int]@);
        }
        let words = text::words(&lines[i]);
        let ghost was = crate::bench::config::pair_views(out@);
        if words.len() >= 2 {
            let later = text::find_word(&words, "inet", 2);
            if later < words.len() {
                let first = text::find_word(&words, "inet", 0);
                if first < words.len() - 1 {
                    assert(text::views(words@)[1] == words@[1]@);
                    assert(text::views(words@)[first + 1] == words@[first + 1]@);
                    out.push((words[1].clone(), words[first + 1].clone()));
                    assert(crate::bench::config::pair_views(out@) =~= was.push(
                        (words@[1]@, words@[first + 1]@),
                    ));
                }
            }
        }
        i += 1;
    }
    assert(text::views(lines@).len() == lines@.len());
    out
}

/// The addresses of an interface among the first `n` listed.
pub open spec fn addresses_of(
    all: Seq<(String, String)>,
    name: Seq<char>,
    n: int,
) -> Seq<Seq<char>>
    decreases n,
{
    if n <= 0 {
        Seq::empty()
    } else if all[n - 1].0@ == name {
        addresses_of(all, name, n - 1).push(all[n - 1].1@)
    } else {
        addresses_of(all, name, n - 1)
    }
}

fn pick_addresses(all: &Vec<(String, String)>, name: &str) -> (r: Vec<String>)
    ensures
        text::views(r@) == addresses_of(all@, name@, all@.len() as int),
{
    let mut out: Vec<String> = Vec::new();
    let mut i: usize = 0;
    assert(text::views(out@) =~= Seq::empty());
    while i < all.len()
        invariant
            i <= all.len(),
            text::views(out@) == addresses_of(all@, name@, i as int),
        decreases all.len() - i,
    {
        let ghost was = text::views(out@);
        if text::same(&all[i].0, name) {
            out.push(all[i].1.clone());
            assert(text::views(out@) =~= was.push(all@[i as int].1@));
        }
        i += 1;
    }
    out
}

/// The contents of the files that the kernel keeps for an interface, where
/// they can be read.
#[derive(Debug, Clone, PartialEq, Eq)]
pub struct IfaceFiles {
    pub name: String,
    pub carrier: Option<String>,
    pub speed: Option<String>,
    pub arp_type: Option<String>,
    /// The interface has a `wireless`, or a `phy80211`, directory.
    pub wireless: bool,
    pub phy80211: bool,
}

/// The speed that a trimmed text gives: a number of 32 bits, where the
/// kernel writes one. A negative speed is what it writes for a virtual
/// device, and is none; a negative zero is zero.
pub open spec fn speed_of(s: Seq<char>) -> Option<u32> {
    if s.len() > 1 && s[0] == '-' {
        let d = s.subrange(1, s.len() as int);
        if text::all_digits(d) && text::value(d) == 0 {
            Some(0)
        } else {
            None
        }
    } else {
        match text::number(s, u32::MAX as nat) {
            Some(n) => Some(n as u32),
            None => None,
        }
    }
}

fn read_speed(s: &str) -> (r: Option<u32>)
    ensures
        r == speed_of(s@),
{
    let v = text::to_chars(s);
    if v.len() > 1 && v[0] == '-' {
        if v[1] == '+' {
            assert(!text::is_digit(s@.subrange(1, s@.len() as int)[0]));
            return None;
        }
        let digits = text::from_range(&v, 1, v.len());
        assert(text::unsigned_digits(digits@) =~= digits@);
        match text::parse_u64(&digits) {
            Some(n) => if n == 0 {
                Some(0)
            } else {
                None
            },
            None => None,
        }
    } else {
        text::parse_u32(s)
    }
}

/// What an interface's files come to. A missing or unreadable attribute
/// means "no", never a default that flatters the interface: an unknown
/// carrier must not present as up.
pub open spec fn iface_of(
    f: IfaceFiles,
    addrs: Seq<(String, String)>,
    rdma: Seq<Seq<char>>,
    r: RawIface,
) -> bool {
    &&& r.name == f.name
    &&& text::views(r.addrs@) == addresses_of(addrs, f.name@, addrs.len() as int)
    &&& r.carrier == (f.carrier is Some && text::trimmed(f.carrier.unwrap()@) == "1"@)
    &&& r.speed_mbps == (match f.speed {
        Some(s) => speed_of(text::trimmed(s@)),
        None => None,
    })
    &&& r.arp_type == (match f.arp_type {
        Some(s) => match text::number(text::trimmed(s@), u32::MAX as nat) {
            Some(n) => n as u32,
            None => 0,
        },
        None => 0,
    })
    &&& r.wireless == (f.wireless || f.phy80211)
    &&& r.rdma == rdma.contains(f.name@)
}

fn holds(names: &Vec<String>, name: &str) -> (r: bool)
    ensures
        r == text::views(names@).contains(name@),
{
    let i = text::find_word(names, name, 0);
    proof {
        text::lemma_word_at(text::views(names@), name@, 0);
    }
    i < names.len()
}

fn raw_iface(f: &IfaceFiles, addrs: &Vec<(String, String)>, rdma: &Vec<String>) -> (r: RawIface)
    ensures
        iface_of(*f, addrs@, text::views(rdma@), r),
{
    let carrier = match &f.carrier {
        Some(s) => {
            let t = text::trim(s);
            text::same(&t, "1")
        },
        None => false,
    };
    let speed_mbps = match &f.speed {
        Some(s) => {
            let t = text::trim(s);
            read_speed(&t)
        },
        None => None,
    };
    let arp_type: u32 = match &f.arp_type {
        Some(s) => {
            let t = text::trim(s);
            match text::parse_u32(&t) {
                Some(n) => n,
                None => 0,
            }
        },
        None => 0,
    };
    RawIface {
        addrs: pick_addresses(addrs, &f.name),
        carrier,
        speed_mbps,
        arp_type,
        wireless: f.wireless || f.phy80211,
        rdma: holds(rdma, &f.name),
        name: f.name.clone(),
    }
}

/// Interfaces by name.
pub struct ByIface;

impl Order<RawIface> for ByIface {
    open spec fn lt(a: RawIface, b: RawIface) -> bool {
        text::precedes(a.name@, b.name@)
    }

    fn less(a: &RawIface, b: &RawIface) -> (r: bool) {
        text::before(&a.name, &b.name)
    }

    proof fn asymmetric(a: RawIface, b: RawIface) {
        text::lemma_precedes_total(a.name@, b.name@);
    }

    proof fn chained(a: RawIface, b: RawIface, c: RawIface) {
        text::lemma_not_precedes_transitive(a.name@, b.name@, c.name@);
    }
}

/// Every interface the kernel lists, by name: its files, the addresses that
/// the address list gives it, and whether it is one of the interfaces that
/// an RDMA device is bound to.
pub fn raw_interfaces(
    files: &Vec<IfaceFiles>,
    addrs: &Vec<(String, String)>,
    rdma: &Vec<String>,
) -> (r: Vec<RawIface>)
    ensures
        exists|c: Seq<RawIface>|
            #![trigger arranged::<RawIface, ByIface>(c)]
            c.len() == files@.len() && (forall|i: int|
                0 <= i < c.len() ==> iface_of(
                    files@[i],
                    addrs@,
                    text::views(rdma@),
                    #[trigger] c[i],
                )) && r@ == arranged::<RawIface, ByIface>(c),
{
    let mut out: Vec<RawIface> = Vec::new();
    let mut i: usize = 0;
    while i < files.len()
        invariant
            i <= files.len(),
            out@.len() == i,
            forall|k: int|
                0 <= k < i ==> iface_of(files@[k], addrs@, text::views(rdma@), #[trigger] out@[k]),
        decreases files.len() - i,
    {
        out.push(raw_iface(&files[i], addrs, rdma));
        i += 1;
    }
    arrange::<RawIface, ByIface>(out)
}

// ---------------------------------------------------------------------------
// Laws
// ---------------------------------------------------------------------------

/// Law: a line of the address list gives the interface that its second word
/// names the address behind the word `inet`; a line without it gives none.
pub proof fn law_a_line_gives_the_address_behind_inet(
    line: Seq<char>,
    words: Seq<Seq<char>>,
    i: int,
)
    requires
        words == text::words_of(line),
    ensures
        2 <= i && i + 1 < words.len() && words[i] == "inet"@ && (forall|k: int|
            0 <= k < i ==> #[trigger] words[k] != "inet"@) ==> line_address(line) == Some(
            (words[1], words[i + 1]),
        ),
        (forall|k: int| 2 <= k < words.len() ==> #[trigger] words[k] != "inet"@) ==> line_address(
            line,
        ) is None,
{
    let w = "inet"@;
    if 2 <= i && i + 1 < words.len() && words[i] == w && (forall|k: int|
        0 <= k < i ==> #[trigger] words[k] != w) {
        lemma_word_first(words, w, 0, i);
        lemma_word_first(words, w, 2, i);
    }
    if forall|k: int| 2 <= k < words.len() ==> #[trigger] words[k] != w {
        if words.len() >= 2 {
            lemma_no_word(words, w, 2);
        }
    }
}

/// The first place of a word is where it is found.
pub proof fn lemma_word_first(words: Seq<Seq<char>>, w: Seq<char>, from: int, i: int)
    requires
        0 <= from <= i < words.len(),
        words[i] == w,
        forall|k: int| from <= k < i ==> #[trigger] words[k] != w,
    ensures
        text::word_at(words, w, from) == i,
    decreases i - from,
{
    if from < i {
        lemma_word_first(words, w, from + 1, i);
    }
}

/// A word that is nowhere is not found.
pub proof fn lemma_no_word(words: Seq<Seq<char>>, w: Seq<char>, from: int)
    requires
        0 <= from <= words.len(),
        forall|k: int| from <= k < words.len() ==> #[trigger] words[k] != w,
    ensures
        text::word_at(words, w, from) >= words.len(),
    decreases words.len() - from,
{
    if from < words.len() {
        lemma_no_word(words, w, from + 1);
    }
}

/// What a line of the address list gives.
pub open spec fn line_gives() -> spec_fn(Seq<char>) -> Option<(Seq<char>, Seq<char>)> {
    |line: Seq<char>| line_address(line)
}

/// The address of an entry, where it is of that interface.
pub open spec fn given_to(name: Seq<char>) -> spec_fn((String, String)) -> Option<Seq<char>> {
    |p: (String, String)|
        if p.0@ == name {
            Some(p.1@)
        } else {
            None
        }
}

/// Law: every line of the list is read, in its order, and an interface has all
/// of the addresses that were listed for it.
pub proof fn law_an_interface_has_all_its_addresses(
    lines: Seq<Seq<char>>,
    all: Seq<(String, String)>,
    name: Seq<char>,
)
    ensures
        listed_addresses(lines, lines.len() as int) == lines.filter_map(line_gives()),
        addresses_of(all, name, all.len() as int) == all.filter_map(given_to(name)),
{
    assert(lines.subrange(0, lines.len() as int) =~= lines);
    assert(all.subrange(0, all.len() as int) =~= all);
    lemma_lines_read(lines, lines.len() as int);
    lemma_given(all, name, all.len() as int);
}

proof fn lemma_lines_read(lines: Seq<Seq<char>>, n: int)
    requires
        0 <= n <= lines.len(),
    ensures
        listed_addresses(lines, n) == lines.subrange(0, n).filter_map(line_gives()),
    decreases n,
{
    let head = lines.subrange(0, n);
    if n > 0 {
        lemma_lines_read(lines, n - 1);
        assert(head.drop_last() =~= lines.subrange(0, n - 1));
        assert(listed_addresses(lines, n) =~= head.filter_map(line_gives()));
    } else {
        assert(listed_addresses(lines, n) =~= head.filter_map(line_gives()));
    }
}

proof fn lemma_given(all: Seq<(String, String)>, name: Seq<char>, n: int)
    requires
        0 <= n <= all.len(),
    ensures
        addresses_of(all, name, n) == all.subrange(0, n).filter_map(given_to(name)),
    decreases n,
{
    let head = all.subrange(0, n);
    if n > 0 {
        lemma_given(all, name, n - 1);
        assert(head.drop_last() =~= all.subrange(0, n - 1));
        assert(addresses_of(all, name, n) =~= head.filter_map(given_to(name)));
    } else {
        assert(addresses_of(all, name, n) =~= head.filter_map(given_to(name)));
    }
}

/// Law: a speed is read as it is written, and one below zero, which is how the
/// kernel says that it knows none, is none.
pub proof fn law_a_speed_is_read_as_written(n: nat)
    ensures
        n <= u32::MAX ==> speed_of(text::dec(n)) == Some(n as u32),
        n > u32::MAX ==> speed_of(text::dec(n)) is None,
        n > 0 ==> speed_of("-"@ + text::dec(n)) is None,
{
    reveal_strlit("-");
    text::law_a_number_is_read_back(n);
    text::lemma_dec(n);
    let d = text::dec(n);
    assert(text::is_digit(d[0]));
    let s = "-"@ + d;
    assert(s.subrange(1, s.len() as int) =~= d);
}

/// Law: an interface is what its files say: it is up where its carrier reads
/// one, it has a radio where either file of one is there, and it can reach
/// remote memory where such a device names it.
pub proof fn law_an_interface_is_what_its_files_say(
    f: IfaceFiles,
    addrs: Seq<(String, String)>,
    rdma: Seq<Seq<char>>,
    r: RawIface,
)
    requires
        iface_of(f, addrs, rdma, r),
    ensures
        r.name == f.name,
        r.carrier <==> (f.carrier matches Some(c) && text::trimmed(c@) == "1"@),
        r.wireless <==> f.wireless || f.phy80211,
        r.rdma <==> rdma.contains(f.name@),
        f.speed is None ==> r.speed_mbps is None,
        f.speed matches Some(s) ==> (text::number(text::trimmed(s@), u32::MAX as nat) matches Some(n)
            ==> r.speed_mbps == Some(n as u32)),
        f.arp_type is None ==> r.arp_type == 0,
        f.arp_type matches Some(s) ==> (text::number(
            text::trimmed(s@),
            u32::MAX as nat,
        ) matches Some(n) ==> r.arp_type == n),
{
}

} // verus!
