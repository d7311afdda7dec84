//! What macOS says of its links, in the text of `ifconfig` and
//! `networksetup`.
//!
//! Everything that decides anything is a function of recorded command output;
//! running the two commands is left to the caller.
use crate::fabric::linux::{lemma_no_word, lemma_word_first};
use crate::fabric::linux::ByIface;
use crate::fabric::{IfaceFacts, RawIface, iface_views, ARPHRD_LOOPBACK};
use crate::order::{arrange, arranged};
use crate::text;
use vstd::prelude::*;

verus! {

/// This machine's links, as macOS has them.
#[derive(Debug, Clone, Default)]
pub struct MacFabric;

impl MacFabric {
    /// A provider for the running machine.
    pub fn new() -> (r: Self)
        ensures
            r == MacFabric,
    {
        MacFabric
    }
}

// ---------------------------------------------------------------------------
// Hardware ports
// ---------------------------------------------------------------------------

/// The hardware port of each device, the one listed last where a device is
/// listed twice.
#[derive(Debug, Clone)]
pub struct PortTable {
    pub entries: Vec<(String, String)>,
}

/// What the first `n` entries come to.
pub open spec fn table_of(entries: Seq<(String, String)>, n: int) -> Map<Seq<char>, Seq<char>>
    decreases n,
{
    if n <= 0 {
        Map::empty()
    } else {
        table_of(entries, n - 1).insert(entries[n - 1].0@, entries[n - 1].1@)
    }
}

impl View for PortTable {
    type V = Map<Seq<char>, Seq<char>>;

    open spec fn view(&self) -> Map<Seq<char>, Seq<char>> {
        table_of(self.entries@, self.entries@.len() as int)
    }
}

proof fn lemma_table_push(entries: Seq<(String, String)>, e: (String, String), n: int)
    requires
        0 <= n <= entries.len(),
    ensures
        table_of(entries.push(e), n) == table_of(entries, n),
    decreases n,
{
    if n > 0 {
        lemma_table_push(entries, e, n - 1);
    }
}

impl PortTable {
    /// The hardware port of a device.
    pub fn get(&self, device: &str) -> (r: Option<&String>)
        ensures
            match r {
                Some(p) => self@.dom().contains(device@) && self@[device@] == p@,
                None => !self@.dom().contains(device@),
            },
    {
        let mut i: usize = self.entries.len();
        while i > 0
            invariant
                i <= self.entries.len(),
                self@.dom().contains(device@) == table_of(
                    self.entries@,
                    i as int,
                ).dom().contains(device@),
                self@.dom().contains(device@) ==> self@[device@] == table_of(
                    self.entries@,
                    i as int,
                )[device@],
            decreases i,
        {
            i -= 1;
            if text::same(&self.entries[i].0, device) {
                return Some(&self.entries[i].1);
            }
        }
        None
    }
}

/// What the lines of the port listing come to so far: the port named last,
/// and the table.
pub open spec fn ports_in(lines: Seq<Seq<char>>, n: int) -> (
    Option<Seq<char>>,
    Map<Seq<char>, Seq<char>>,
)
    decreases n,
{
    if n <= 0 {
        (None, Map::empty())
    } else {
        let (port, table) = ports_in(lines, n - 1);
        let line = lines[n - 1];
        if text::begins(line, "Hardware Port: "@) {
            (
                Some(
                    text::trimmed(line.subrange("Hardware Port: "@.len() as int, line.len() as int)),
                ),
                table,
            )
        } else if text::begins(line, "Device: "@) && port is Some {
            (
                port,
                table.insert(
                    text::trimmed(line.subrange("Device: "@.len() as int, line.len() as int)),
                    port.unwrap(),
                ),
            )
        } else {
            (port, table)
        }
    }
}

/// The table that a port listing gives.
pub open spec fn ports_of(listing: Seq<char>) -> Map<Seq<char>, Seq<char>> {
    ports_in(text::lines_of(listing), text::lines_of(listing).len() as int).1
}

/// Which hardware port name the system gives each device.
///
/// `networksetup -listallhardwareports` is the only stock source that says a
/// device is "Wi-Fi": `ifconfig` presents a wireless link as plain ethernet.
pub fn ports_by_device(listing: &str) -> (r: PortTable)
    ensures
        r@ == ports_of(listing@),
{
    let lines = text::lines(listing);
    let mut port: Option<String> = None;
    let mut out = PortTable { entries: Vec::new() };
    let mut i: usize = 0;
    while i < lines.len()
        invariant
            i <= lines.len(),
            text::views(lines@) == text::lines_of(listing@),
            out@ == ports_in(text::lines_of(listing@), i as int).1,
            match port {
                Some(p) => ports_in(text::lines_of(listing@), i as int).0 == Some(p@),
                None => ports_in(text::lines_of(listing@), i as int).0 is None,
            },
        decreases lines.len() - i,
    {
        assert(text::views(lines@)[i as int] == lines@[i as int]@);
        match text::strip_prefix(&lines[i], "Hardware Port: ") {
            Some(p) => {
                port = Some(text::trim(&p));
            },
            None => match text::strip_prefix(&lines[i], "Device: ") {
                Some(d) => match &port {
                    Some(p) => {
                        let ghost was = out.entries@;
                        let e = (text::trim(&d), p.clone());
                        out.entries.push(e);
                        proof {
                            lemma_table_push(was, e, was.len() as int);
                        }
                    },
                    None => {},
                },
                None => {},
            },
        }
        i += 1;
    }
    assert(text::views(lines@).len() == lines@.len());
    out
}

/// Whether `p` occurs in `s`.
pub open spec fn occurs(s: Seq<char>, p: Seq<char>) -> bool {
    exists|i: int|
        0 <= i && i + p.len() <= s.len() && #[trigger] s.subrange(i, i + p.len()) == p
}

fn contains(s: &str, p: &str) -> (r: bool)
    ensures
        r == occurs(s@, p@),
{
    let v = text::to_chars(s);
    let w = text::to_chars(p);
    if w.len() > v.len() {
        return false;
    }
    let last: usize = v.len() - w.len();
    let mut i: usize = 0;
    while i < last
        invariant
            i <= last,
            last == v.len() - w.len(),
            v@ == s@,
            w@ == p@,
            forall|k: int| 0 <= k < i ==> #[trigger] s@.subrange(k, k + p@.len()) != p@,
        decreases last - i,
    {
        let here = text::from_range(&v, i, i + w.len());
        if text::same(&here, p) {
            assert(s@.subrange(i as int, i + p@.len()) == p@);
            return true;
        }
        i += 1;
    }
    let here = text::from_range(&v, last, v.len());
    assert(here@ == s@.subrange(last as int, last + p@.len()));
    text::same(&here, p)
}

/// A port name that means a wireless link: "Wi-Fi" on anything current,
/// "AirPort" on older systems.
pub open spec fn wireless_port(port: Seq<char>) -> bool {
    port == "Wi-Fi"@ || occurs(port, "AirPort"@)
}

/// Whether a hardware port name means a wireless link.
pub fn is_wireless_port(port: &str) -> (r: bool)
    ensures
        r == wireless_port(port@),
{
    text::same(port, "Wi-Fi") || contains(port, "AirPort")
}

// ---------------------------------------------------------------------------
// Netmasks
// ---------------------------------------------------------------------------

/// The value of a hexadecimal digit of either case.
pub open spec fn hex_digit(c: char) -> Option<nat> {
    if '0' <= c && c <= '9' {
        Some((c as nat - 48) as nat)
    } else if 'a' <= c && c <= 'f' {
        Some((c as nat - 87) as nat)
    } else if 'A' <= c && c <= 'F' {
        Some((c as nat - 55) as nat)
    } else {
        None
    }
}

/// The number that hexadecimal digits stand for, when there are only such
/// digits.
pub open spec fn hex_number(s: Seq<char>) -> Option<nat>
    decreases s.len(),
{
    if s.len() == 0 {
        Some(0)
    } else {
        match (hex_number(s.drop_last()), hex_digit(s.last())) {
            (Some(n), Some(d)) => Some(n * 16 + d),
            _ => None,
        }
    }
}

/// A power of two.
pub open spec fn two_to(n: nat) -> nat
    decreases n,
{
    if n == 0 {
        1
    } else {
        2 * two_to((n - 1) as nat)
    }
}

/// The length of the prefix that a mask of 32 bits leaves open, among those
/// of at least `p`: `p` ones followed by zeros.
pub open spec fn mask_prefix(mask: nat, p: nat) -> Option<u8>
    decreases 33 - p,
{
    if p > 32 {
        None
    } else if mask == 0x1_0000_0000 - two_to((32 - p) as nat) {
        Some(p as u8)
    } else {
        mask_prefix(mask, p + 1)
    }
}

/// The word of 32 bits that a token of `0x` and hexadecimal digits gives.
pub open spec fn hex_word(token: Seq<char>) -> Option<nat> {
    if text::begins(token, "0x"@) {
        let d = text::unsigned_digits(token.subrange("0x"@.len() as int, token.len() as int));
        if d.len() > 0 && hex_number(d) is Some && hex_number(d).unwrap() <= u32::MAX {
            hex_number(d)
        } else {
            None
        }
    } else {
        None
    }
}

/// The prefix length of a `0xffffff00`-style netmask. Only a contiguous mask
/// has one.
pub open spec fn netmask_prefix(token: Seq<char>) -> Option<u8> {
    match hex_word(token) {
        Some(m) => mask_prefix(m, 0),
        None => None,
    }
}

fn digit_value(c: char) -> (r: Option<u32>)
    ensures
        match r {
            Some(d) => hex_digit(c) == Some(d as nat) && d < 16,
            None => hex_digit(c) is None,
        },
{
    if '0' <= c && c <= '9' {
        Some(c as u32 - 48)
    } else if 'a' <= c && c <= 'f' {
        Some(c as u32 - 87)
    } else if 'A' <= c && c <= 'F' {
        Some(c as u32 - 55)
    } else {
        None
    }
}

proof fn lemma_hex_front(s: Seq<char>, i: int)
    requires
        0 <= i <= s.len(),
    ensures
        hex_number(s) is Some ==> hex_number(s.subrange(0, i)) is Some && hex_number(
            s.subrange(0, i),
        ).unwrap() <= hex_number(s).unwrap(),
    decreases s.len(),
{
    if i == s.len() {
        assert(s.subrange(0, i) =~= s);
    } else {
        lemma_hex_front(s.drop_last(), i);
        assert(s.drop_last().subrange(0, i) =~= s.subrange(0, i));
    }
}

fn read_hex_word(token: &str) -> (r: Option<u32>)
    ensures
        match r {
            Some(n) => hex_word(token@) == Some(n as nat),
            None => hex_word(token@) is None,
        },
{
    let rest = match text::strip_prefix(token, "0x") {
        Some(d) => d,
        None => return None,
    };
    let v = text::to_chars(&rest);
    let start: usize = if v.len() > 0 && v[0] == '+' {
        1
    } else {
        0
    };
    let ghost d = text::unsigned_digits(rest@);
    assert(d =~= v@.subrange(start as int, v@.len() as int));
    if start == v.len() {
        return None;
    }
    let mut n: u32 = 0;
    let mut i: usize = start;
    while i < v.len()
        invariant
            start <= i <= v.len(),
            d == v@.subrange(start as int, v@.len() as int),
            hex_number(d.subrange(0, i - start)) == Some(n as nat),
            d == text::unsigned_digits(rest@),
            text::begins(token@, "0x"@),
            rest@ == token@.subrange("0x"@.len() as int, token@.len() as int),
        decreases v.len() - i,
    {
        let ghost front = d.subrange(0, i - start);
        let ghost next = d.subrange(0, i - start + 1);
        assert(next.drop_last() =~= front);
        assert(next.last() == v@[i as int]);
        proof {
            lemma_hex_front(d, i - start + 1);
        }
        match digit_value(v[i]) {
            Some(x) => {
                if n > 0x0fff_ffff {
                    return None;
                }
                n = n * 16 + x;
            },
            None => return None,
        }
        i += 1;
    }
    assert(d.subrange(0, v.len() - start) =~= d);
    Some(n)
}

/// Convert a `0xffffff00`-style netmask to a prefix length.
///
/// macOS prints netmasks as hex words. Only a contiguous mask has a prefix;
/// anything else is `None`, and the caller reports the bare address.
pub fn prefix_from_hex_netmask(token: &str) -> (r: Option<u8>)
    ensures
        r == netmask_prefix(token@),
{
    let mask = match read_hex_word(token) {
        Some(m) => m as u64,
        None => return None,
    };
    let mut p: u8 = 0;
    let mut open: u64 = 0x1_0000_0000;
    assert(two_to(32) == 0x1_0000_0000) by {
        reveal_with_fuel(two_to, 33);
    }
    while p <= 32
        invariant
            p <= 33,
            p <= 32 ==> open == two_to((32 - p) as nat),
            open <= 0x1_0000_0000,
            hex_word(token@) == Some(mask as nat),
            mask_prefix(mask as nat, 0) == mask_prefix(mask as nat, p as nat),
        decreases 33 - p,
    {
        if mask == 0x1_0000_0000 - open {
            return Some(p);
        }
        if p < 32 {
            assert(two_to((32 - p) as nat) == 2 * two_to((31 - p) as nat));
        }
        open = open / 2;
        p += 1;
    }
    None
}

// ---------------------------------------------------------------------------
// The interface listing
// ---------------------------------------------------------------------------

/// The text between the brackets of `flags=8863<UP,BROADCAST,...>`.
pub open spec fn flag_text(header: Seq<char>) -> Seq<char> {
    match text::halves(header, '<') {
        Some(p) => match text::halves(p.1, '>') {
            Some(q) => q.0,
            None => ""@,
        },
        None => ""@,
    }
}

/// The comma-separated flag names inside `flags=8863<UP,BROADCAST,...>`.
pub fn flags_of(header: &str) -> (r: Vec<String>)
    ensures
        text::views(r@) == text::split(flag_text(header@), ','),
{
    match text::split_once(header, '<') {
        Some((_, rest)) => match text::split_once(&rest, '>') {
            Some((flags, _)) => text::split_on(&flags, ','),
            None => text::split_on("", ','),
        },
        None => text::split_on("", ','),
    }
}

/// A line that belongs to the interface above it.
pub open spec fn indented(line: Seq<char>) -> bool {
    line.len() > 0 && (line[0] == ' ' || line[0] == '\t')
}

/// The interface that a header line opens: `en0: flags=8863<UP,...> mtu 1500`.
/// Until a `status:` line says otherwise it has no carrier; macOS has no
/// portable speed and no ARPHRD table, so the LOOPBACK flag is the one fact
/// taken from the header.
pub open spec fn opened(
    name: Seq<char>,
    rest: Seq<char>,
    ports: Map<Seq<char>, Seq<char>>,
) -> IfaceFacts {
    IfaceFacts {
        name,
        addrs: Seq::empty(),
        carrier: false,
        speed_mbps: None,
        arp_type: if text::split(flag_text(rest), ',').contains("LOOPBACK"@) {
            ARPHRD_LOOPBACK
        } else {
            0
        },
        wireless: ports.dom().contains(name) && wireless_port(ports[name]),
        rdma: false,
    }
}

/// The address that `inet 192.168.1.23 netmask 0xffffff00 ...` gives, with
/// its prefix where the mask has one.
pub open spec fn inet_address(words: Seq<Seq<char>>) -> Seq<char> {
    let k = text::word_at(words, "netmask"@, 2);
    let prefix = if k + 1 < words.len() {
        netmask_prefix(words[k + 1])
    } else {
        None
    };
    match prefix {
        Some(p) => words[1] + "/"@ + text::dec(p as nat),
        None => words[1],
    }
}

/// What an indented line says of its interface. `inet6` is skipped with
/// everything else: a link-local address needs a zone that no peer has.
pub open spec fn detailed(current: IfaceFacts, line: Seq<char>) -> IfaceFacts {
    let words = text::words_of(line);
    if words.len() > 1 && words[0] == "inet"@ {
        IfaceFacts { addrs: current.addrs.push(inet_address(words)), ..current }
    } else if words.len() > 0 && words[0] == "status:"@ {
        IfaceFacts { carrier: words.len() > 1 && words[1] == "active"@, ..current }
    } else {
        current
    }
}

/// The interfaces that the first `n` lines describe, as they are listed.
pub open spec fn described(
    lines: Seq<Seq<char>>,
    ports: Map<Seq<char>, Seq<char>>,
    n: int,
) -> Seq<IfaceFacts>
    decreases n,
{
    if n <= 0 {
        Seq::empty()
    } else {
        let so_far = described(lines, ports, n - 1);
        let line = lines[n - 1];
        if !indented(line) {
            match text::halves(line, ':') {
                Some(p) => so_far.push(opened(p.0, p.1, ports)),
                None => so_far,
            }
        } else if so_far.len() > 0 {
            so_far.update(so_far.len() - 1, detailed(so_far.last(), line))
        } else {
            so_far
        }
    }
}

fn open_block(name: String, rest: &str, ports: &PortTable) -> (r: RawIface)
    ensures
        r@ == opened(name@, rest@, ports@),
{
    let flags = flags_of(rest);
    let at = text::find_word(&flags, "LOOPBACK", 0);
    proof {
        text::lemma_word_at(text::views(flags@), "LOOPBACK"@, 0);
    }
    let wireless = match ports.get(&name) {
        Some(p) => is_wireless_port(p),
        None => false,
    };
    let r = RawIface {
        addrs: Vec::new(),
        carrier: false,
        speed_mbps: None,
        arp_type: if at < flags.len() {
            ARPHRD_LOOPBACK
        } else {
            0
        },
        wireless,
        rdma: false,
        name,
    };
    assert(r@ =~= opened(name@, rest@, ports@));
    r
}

fn read_inet(words: &Vec<String>) -> (r: String)
    requires
        words.len() > 1,
    ensures
        r@ == inet_address(text::views(words@)),
{
    let k = text::find_word(words, "netmask", 2);
    assert(text::views(words@)[1] == words@[1]@);
    let prefix = if k < words.len() - 1 {
        assert(text::views(words@)[k + 1] == words@[k + 1]@);
        prefix_from_hex_netmask(&words[k + 1])
    } else {
        None
    };
    match prefix {
        Some(p) => {
            let digits = text::decimal(p as u64);
            text::cat3(&words[1], "/", &digits)
        },
        None => words[1].clone(),
    }
}

fn read_detail(current: &mut RawIface, line: &str)
    ensures
        final(current)@ == detailed(old(current)@, line@),
{
    let words = text::words(line);
    if words.len() > 0 {
        assert(text::views(words@)[0] == words@[0]@);
    }
    if words.len() > 1 && text::same(&words[0], "inet") {
        let addr = read_inet(&words);
        let ghost was = current.addrs@;
        current.addrs.push(addr);
        assert(text::views(current.addrs@) =~= text::views(was).push(addr@));
        assert(current@ =~= detailed(old(current)@, line@));
    } else if words.len() > 0 && text::same(&words[0], "status:") {
        if words.len() > 1 {
            assert(text::views(words@)[1] == words@[1]@);
            current.carrier = text::same(&words[1], "active");
        } else {
            current.carrier = false;
        }
        assert(current@ =~= detailed(old(current)@, line@));
    }
}

/// The interfaces of an `ifconfig -a` listing, joined with the hardware port
/// table, by name.
pub open spec fn is_interface_list(
    ifconfig: Seq<char>,
    hardware_ports: Seq<char>,
    r: Seq<RawIface>,
) -> bool {
    let lines = text::lines_of(ifconfig);
    exists|c: Seq<RawIface>| #[trigger]
        iface_views(c) == described(lines, ports_of(hardware_ports), lines.len() as int) && r
            == arranged::<RawIface, ByIface>(c)
}

/// Every interface in an `ifconfig -a` listing, joined with the hardware port
/// table.
pub fn interfaces_from(ifconfig: &str, hardware_ports: &str) -> (r: Vec<RawIface>)
    ensures
        is_interface_list(ifconfig@, hardware_ports@, r@),
{
    let ports = ports_by_device(hardware_ports);
    let lines = text::lines(ifconfig);
    let mut out: Vec<RawIface> = Vec::new();
    let mut i: usize = 0;
    let ghost all = text::lines_of(ifconfig@);
    assert(iface_views(out@) =~= Seq::empty());
    while i < lines.len()
        invariant
            i <= lines.len(),
            all == text::lines_of(ifconfig@),
            text::views(lines@) == all,
            iface_views(out@) == described(all, ports@, i as int),
        decreases lines.len() - i,
    {
        assert(text::views(lines@)[i as int] == lines@[i as int]@);
        let chars = text::to_chars(&lines[i]);
        let ghost was = iface_views(out@);
        if chars.len() == 0 || (chars[0] != ' ' && chars[0] != '\t') {
            match text::split_once(&lines[i], ':') {
                Some((name, rest)) => {
                    let block = open_block(name, &rest, &ports);
                    out.push(block);
                    assert(iface_views(out@) =~= was.push(block@));
                },
                None => {},
            }
        } else {
            let ghost before = out@;
            match out.pop() {
                Some(block) => {
                    let mut current = block;
                    read_detail(&mut current, &lines[i]);
                    out.push(current);
                    assert(was.last() == block@);
                    assert(iface_views(out@) =~= was.update(was.len() - 1, current@));
                },
                None => {
                    assert(out@ =~= before);
                },
            }
        }
        i += 1;
    }
    assert(text::views(lines@).len() == lines@.len());
    arrange::<RawIface, ByIface>(out)
}

// ---------------------------------------------------------------------------
// Laws
// ---------------------------------------------------------------------------

/// Law: a prefix is reported exactly for contiguous masks, and it counts
/// their ones. A mask that is not a run of ones followed by zeros has none.
pub proof fn law_only_contiguous_masks_have_a_prefix(mask: nat, p: nat)
    requires
        p <= 32,
    ensures
        (mask_prefix(mask, 0) == Some(p as u8)) == (mask == 0x1_0000_0000 - two_to(
            (32 - p) as nat,
        )),
{
    lemma_mask_prefix(mask, 0, p);
}

proof fn lemma_two_to_grows(a: nat, b: nat)
    requires
        a < b,
    ensures
        two_to(a) < two_to(b),
    decreases b,
{
    lemma_two_to_positive(a);
    if a < b - 1 {
        lemma_two_to_grows(a, (b - 1) as nat);
    }
}

proof fn lemma_two_to_positive(a: nat)
    ensures
        two_to(a) > 0,
    decreases a,
{
    if a > 0 {
        lemma_two_to_positive((a - 1) as nat);
    }
}

proof fn lemma_mask_prefix(mask: nat, from: nat, p: nat)
    requires
        from <= p <= 32,
    ensures
        (mask_prefix(mask, from) == Some(p as u8)) == (mask == 0x1_0000_0000 - two_to(
            (32 - p) as nat,
        )),
    decreases p - from,
{
    if from < p {
        lemma_two_to_grows((32 - p) as nat, (32 - from) as nat);
        lemma_mask_prefix(mask, from + 1, p);
    } else if mask != 0x1_0000_0000 - two_to((32 - p) as nat) {
        lemma_mask_later(mask, p + 1, p);
    }
}

proof fn lemma_mask_later(mask: nat, from: nat, p: nat)
    requires
        p < from,
        p <= 32,
    ensures
        mask_prefix(mask, from) != Some(p as u8),
    decreases 33 - from,
{
    if from <= 32 {
        lemma_mask_later(mask, from + 1, p);
    }
}

/// Law: a device belongs to the port that was named last before it, and the
/// devices that were listed before keep theirs.
pub proof fn law_a_device_is_on_the_port_above(
    lines: Seq<Seq<char>>,
    port: Seq<char>,
    device: Seq<char>,
    other: Seq<char>,
)
    ensures
        ({
            let more = lines.push("Hardware Port: "@ + port).push("Device: "@ + device);
            let was = ports_in(lines, lines.len() as int).1;
            let now = ports_in(more, more.len() as int).1;
            &&& now.dom().contains(text::trimmed(device))
            &&& now[text::trimmed(device)] == text::trimmed(port)
            &&& other != text::trimmed(device) ==> now.dom().contains(other) == was.dom().contains(
                other,
            ) && now[other] == was[other]
        }),
{
    let a = "Hardware Port: "@ + port;
    let b = "Device: "@ + device;
    let one = lines.push(a);
    let more = one.push(b);
    let n = lines.len() as int;
    text::law_beginnings_and_ends(a, "Hardware Port: "@, port);
    text::law_beginnings_and_ends(b, "Device: "@, device);
    assert(a.subrange("Hardware Port: "@.len() as int, a.len() as int) =~= port);
    assert(b.subrange("Device: "@.len() as int, b.len() as int) =~= device);
    reveal_strlit("Hardware Port: ");
    reveal_strlit("Device: ");
    assert(!text::begins(b, "Hardware Port: "@)) by {
        if text::begins(b, "Hardware Port: "@) {
            assert(b.subrange(0, "Hardware Port: "@.len() as int)[0] == b[0]);
        }
    }
    lemma_ports_front(lines, more, n);
    assert(more[n] == a && more[n + 1] == b);
    assert(ports_in(more, n + 1).0 == Some(text::trimmed(port)));
}

proof fn lemma_ports_front(lines: Seq<Seq<char>>, more: Seq<Seq<char>>, n: int)
    requires
        0 <= n <= lines.len() <= more.len(),
        forall|i: int| 0 <= i < lines.len() ==> #[trigger] more[i] == lines[i],
    ensures
        ports_in(more, n) == ports_in(lines, n),
    decreases n,
{
    if n > 0 {
        lemma_ports_front(lines, more, n - 1);
        assert(more[n - 1] == lines[n - 1]);
    }
}

/// Law: an interface begins with a line that is not indented, and what the
/// indented lines below say is said of it: each address that they give, and
/// whether the link is active. The interfaces above are left as they are.
pub proof fn law_an_interface_is_described_below_its_name(
    lines: Seq<Seq<char>>,
    ports: Map<Seq<char>, Seq<char>>,
    name: Seq<char>,
    rest: Seq<char>,
    line: Seq<char>,
    k: int,
)
    requires
        name.len() > 0,
        !name.contains(':'),
        name[0] != ' ',
        name[0] != '\t',
        line.len() > 0,
        line[0] == ' ' || line[0] == '\t',
    ensures
        ({
            let was = described(lines, ports, lines.len() as int);
            let one = lines.push(name + seq![':'] + rest);
            let a = described(one, ports, one.len() as int);
            let two = one.push(line);
            let b = described(two, ports, two.len() as int);
            let words = text::words_of(line);
            &&& a.len() == was.len() + 1 && b.len() == a.len()
            &&& 0 <= k < was.len() ==> a[k] == was[k] && b[k] == was[k]
            &&& a.last().name == name && a.last().addrs.len() == 0 && !a.last().carrier
                && !a.last().rdma && a.last().speed_mbps is None
            &&& a.last().wireless <==> ports.dom().contains(name) && wireless_port(ports[name])
            &&& a.last().arp_type == (if text::split(flag_text(rest), ',').contains("LOOPBACK"@) {
                772u32
            } else {
                0
            })
            &&& b.last().name == name
            &&& words.len() > 1 && words[0] == "inet"@ ==> b.last().addrs == seq![
                inet_address(words),
            ] && !b.last().carrier
            &&& words.len() > 0 && words[0] == "status:"@ && words[0] != "inet"@ ==> (
            b.last().carrier <==> words.len() > 1 && words[1] == "active"@)
            &&& words.len() > 0 && words[0] != "inet"@ && words[0] != "status:"@ ==> b.last()
                == a.last()
        }),
{
    let head = name + seq![':'] + rest;
    let one = lines.push(head);
    let two = one.push(line);
    let n = lines.len() as int;
    lemma_described_front(lines, one, ports, n);
    lemma_described_front(one, two, ports, n + 1);
    assert(head[0] == name[0]);
    text::lemma_find(head, ':', 0);
    let i = text::find(head, ':', 0);
    assert(head[name.len() as int] == ':');
    if i < name.len() {
        assert(name[i] == ':');
    }
    assert(head.subrange(0, i) =~= name);
    assert(head.subrange(i + 1, head.len() as int) =~= rest);
    assert(one[n] == head && two[n + 1] == line);
    let a = described(one, ports, n + 1);
    assert(a == described(lines, ports, n).push(opened(name, rest, ports)));
    let words = text::words_of(line);
    if words.len() > 1 && words[0] == "inet"@ {
        assert(Seq::<Seq<char>>::empty().push(inet_address(words)) =~= seq![inet_address(words)]);
    }
}

proof fn lemma_described_front(
    lines: Seq<Seq<char>>,
    more: Seq<Seq<char>>,
    ports: Map<Seq<char>, Seq<char>>,
    n: int,
)
    requires
        0 <= n <= lines.len() <= more.len(),
        forall|i: int| 0 <= i < lines.len() ==> #[trigger] more[i] == lines[i],
    ensures
        described(more, ports, n) == described(lines, ports, n),
    decreases n,
{
    if n > 0 {
        lemma_described_front(lines, more, ports, n - 1);
        assert(more[n - 1] == lines[n - 1]);
    }
}

/// Law: an address is written with the length of the prefix that its mask
/// leaves open, where the mask has one; and without where it has none.
pub proof fn law_an_address_is_written_with_its_prefix(words: Seq<Seq<char>>, k: int)
    requires
        words.len() > 1,
    ensures
        2 <= k && k + 1 < words.len() && words[k] == "netmask"@ && (forall|j: int|
            2 <= j < k ==> #[trigger] words[j] != "netmask"@) ==> inet_address(words) == (
        match netmask_prefix(words[k + 1]) {
            Some(p) => words[1] + "/"@ + text::dec(p as nat),
            None => words[1],
        }),
        (forall|j: int| 2 <= j < words.len() ==> #[trigger] words[j] != "netmask"@)
            ==> inet_address(words) == words[1],
{
    let w = "netmask"@;
    if 2 <= k && k + 1 < words.len() && words[k] == w && (forall|j: int|
        2 <= j < k ==> #[trigger] words[j] != w) {
        lemma_word_first(words, w, 2, k);
    }
    if forall|j: int| 2 <= j < words.len() ==> #[trigger] words[j] != w {
        lemma_no_word(words, w, 2);
    }
}

/// Law: a port is wireless where it is called so, by the one name or the other.
pub proof fn law_a_wireless_port_is_called_so(before: Seq<char>, after: Seq<char>)
    ensures
        wireless_port("Wi-Fi"@),
        wireless_port(before + "AirPort"@ + after),
{
    let p = "AirPort"@;
    let s = before + p + after;
    let i = before.len() as int;
    assert(s.subrange(i, i + p.len()) =~= p);
    assert(occurs(s, p));
}

/// Law: an interface's flags are what stands between its angle brackets.
pub proof fn law_flags_stand_between_brackets(
    before: Seq<char>,
    flags: Seq<char>,
    after: Seq<char>,
)
    requires
        !before.contains('<'),
        !flags.contains('>'),
    ensures
        flag_text(before + seq!['<'] + flags + seq!['>'] + after) == flags,
        flag_text(before) == ""@,
{
    let s = before + seq!['<'] + flags + seq!['>'] + after;
    let rest = flags + seq!['>'] + after;
    text::lemma_find(s, '<', 0);
    let i = text::find(s, '<', 0);
    assert(s[before.len() as int] == '<');
    if i < before.len() {
        assert(before[i] == '<');
    }
    assert(s.subrange(i + 1, s.len() as int) =~= rest);
    text::lemma_find(rest, '>', 0);
    let j = text::find(rest, '>', 0);
    assert(rest[flags.len() as int] == '>');
    if j < flags.len() {
        assert(flags[j] == '>');
    }
    assert(rest.subrange(0, j) =~= flags);
    text::lemma_find(before, '<', 0);
    let k = text::find(before, '<', 0);
    if k < before.len() {
        assert(before[k] == '<');
    }
}

/// Law: a mask is read in hexadecimal, its letters in either case, from the
/// digits behind `0x`.
pub proof fn law_a_mask_is_read_in_hexadecimal(d: Seq<char>, c: char)
    ensures
        '0' <= c && c <= '9' ==> hex_digit(c) == Some((c as nat - '0' as nat) as nat),
        'a' <= c && c <= 'f' ==> hex_digit(c) == Some((c as nat - 'a' as nat + 10) as nat),
        'A' <= c && c <= 'F' ==> hex_digit(c) == Some((c as nat - 'A' as nat + 10) as nat),
        hex_number(Seq::empty()) == Some(0nat),
        hex_number(d.push(c)) == (match (hex_number(d), hex_digit(c)) {
            (Some(n), Some(x)) => Some(16 * n + x),
            _ => None,
        }),
        d.len() > 0 && d[0] != '+' ==> (hex_number(d) matches Some(n) ==> n <= u32::MAX ==> hex_word(
            "0x"@ + d,
        ) == Some(n)),
{
    assert(d.push(c).drop_last() =~= d);
    text::law_beginnings_and_ends("0x"@ + d, "0x"@, d);
    let t = "0x"@ + d;
    assert(t.subrange("0x"@.len() as int, t.len() as int) =~= d);
}

} // verus!
