//! What machines announce of themselves on the local network, and the address
//! that someone types instead.
//!
//! Everything that arrives is untrusted. A record that makes no sense is
//! dropped and not reported: on a shared network such records are noise.
use crate::fleet::routing::Socket;
use crate::name::{display_name, shown};
use crate::node::{hex_number, law_identity_round_trip, NodeId};
use crate::text;
use vstd::prelude::*;

verus! {

/// What a machine announces. It is unauthenticated and visible to the whole
/// network, so it places the machine and says little else.
#[derive(Debug, Clone, PartialEq, Eq)]
pub struct Beacon {
    pub id: NodeId,
    pub name: String,
    /// The port of its peer channel.
    pub peer_port: u16,
    pub addresses: Vec<String>,
    pub can_launch: bool,
    pub accelerator: String,
}

/// The entries of a text record.
pub open spec fn entries(props: Seq<(String, String)>) -> Seq<(Seq<char>, Seq<char>)> {
    Seq::new(props.len(), |i: int| (props[i].0@, props[i].1@))
}

/// The value of the first entry with a key, from a place on.
pub open spec fn entry(
    props: Seq<(Seq<char>, Seq<char>)>,
    key: Seq<char>,
    from: int,
) -> Option<Seq<char>>
    decreases props.len() - from,
{
    if from < 0 || from >= props.len() {
        None
    } else if props[from].0 == key {
        Some(props[from].1)
    } else {
        entry(props, key, from + 1)
    }
}

fn find_entry<'a>(props: &'a [(String, String)], key: &str) -> (r: Option<&'a String>)
    ensures
        match r {
            Some(s) => entry(entries(props@), key@, 0) == Some(s@),
            None => entry(entries(props@), key@, 0) is None,
        },
{
    let mut i: usize = 0;
    while i < props.len()
        invariant
            i <= props@.len(),
            entry(entries(props@), key@, 0) == entry(entries(props@), key@, i as int),
        decreases props@.len() - i,
    {
        if text::same(&props[i].0, key) {
            return Some(&props[i].1);
        }
        i += 1;
    }
    None
}

/// The identity that a text spells.
pub open spec fn spelt(s: Seq<char>, id: NodeId) -> bool {
    s.len() == 64 && hex_number(s.subrange(0, 32)) == Some(id.hi as nat) && hex_number(
        s.subrange(32, 64),
    ) == Some(id.lo as nat)
}

/// A text that is shown, or nothing.
pub open spec fn shown_or_empty(s: Option<Seq<char>>) -> Seq<char> {
    match s {
        Some(v) => shown(v),
        None => Seq::empty(),
    }
}

fn clean(s: Option<&String>) -> (r: String)
    ensures
        r@ == shown_or_empty(
            match s {
                Some(v) => Some(v@),
                None => None,
            },
        ),
{
    match s {
        Some(v) => display_name(v),
        None => String::new(),
    }
}

/// A text record gives this beacon. Its texts are cleaned before anything
/// shows them, and a claim that is absent is not made.
pub open spec fn announced(
    props: Seq<(Seq<char>, Seq<char>)>,
    addresses: Vec<String>,
    port: u16,
    b: Beacon,
) -> bool {
    &&& entry(props, "id"@, 0) matches Some(id) && spelt(id, b.id)
    &&& b.name@ == shown_or_empty(entry(props, "name"@, 0))
    &&& b.can_launch == (entry(props, "cl"@, 0) == Some("1"@))
    &&& b.accelerator@ == shown_or_empty(entry(props, "gpu"@, 0))
    &&& b.addresses == addresses
    &&& b.peer_port == port
}

impl Beacon {
    /// The text record of a beacon. It carries no version, no inventory and
    /// not the port of the browser: those would be a list to pick from for
    /// anyone who listens.
    pub open spec fn record(self) -> Seq<(Seq<char>, Seq<char>)> {
        seq![
            ("id"@, self.id.hex()),
            ("name"@, self.name@),
            (
                "cl"@,
                if self.can_launch {
                    "1"@
                } else {
                    "0"@
                },
            ),
            ("gpu"@, self.accelerator@),
        ]
    }

    /// The text record of a beacon.
    pub fn txt_properties(&self) -> (r: Vec<(String, String)>)
        ensures
            entries(r@) == self.record(),
    {
        let mut r: Vec<(String, String)> = Vec::new();
        r.push((text::copy("id"), self.id.to_hex()));
        r.push((text::copy("name"), self.name.clone()));
        let launches = if self.can_launch {
            text::copy("1")
        } else {
            text::copy("0")
        };
        r.push((text::copy("cl"), launches));
        r.push((text::copy("gpu"), self.accelerator.clone()));
        assert(entries(r@) =~= self.record());
        r
    }

    /// The beacon that a text record gives, where it names an identity.
    pub fn from_txt(props: &[(String, String)], addresses: Vec<String>, port: u16) -> (r: Option<
        Beacon,
    >)
        ensures
            match r {
                Some(b) => announced(entries(props@), addresses, port, b),
                None => entry(entries(props@), "id"@, 0) matches Some(s) ==> forall|id: NodeId|
                    !spelt(s, id),
            },
    {
        let id = match find_entry(props, "id") {
            Some(s) => match NodeId::parse(s) {
                Some(id) => id,
                None => return None,
            },
            None => return None,
        };
        let can_launch = match find_entry(props, "cl") {
            Some(v) => text::same(v, "1"),
            None => false,
        };
        let name = clean(find_entry(props, "name"));
        let accelerator = clean(find_entry(props, "gpu"));
        Some(Beacon { id, name, peer_port: port, addresses, can_launch, accelerator })
    }

    /// The name of the record on the network: unique there, and telling no
    /// more than the record itself does.
    pub fn instance(&self) -> (r: String)
        ensures
            r@ == "metrale-"@ + self.id.hex().subrange(0, 16),
    {
        proof {
            law_identity_round_trip(self.id);
        }
        let whole = self.id.to_hex();
        let v = text::to_chars(&whole);
        let half = text::from_range(&v, 0, 16);
        text::cat2("metrale-", &half)
    }

    /// The host name of the record.
    pub fn host(&self) -> (r: String)
        ensures
            r@ == "metrale-"@ + self.id.hex().subrange(0, 16) + ".local."@,
    {
        let instance = self.instance();
        text::cat2(&instance, ".local.")
    }
}

// ---------------------------------------------------------------------------
// A typed address
// ---------------------------------------------------------------------------

/// A host and the port written behind it.
pub open spec fn with_port(host: Seq<char>, port: Seq<char>) -> Option<(Seq<char>, nat)> {
    match text::number(port, u16::MAX as nat) {
        Some(n) => Some((host, n)),
        None => None,
    }
}

/// The host and the port that a typed address names. White space around it is
/// dropped. An address with several colons is all host: it is written in
/// brackets where a port is to follow.
pub open spec fn typed(target: Seq<char>, default_port: u16) -> Option<(Seq<char>, nat)> {
    let t = text::trimmed(target);
    let close = text::find(t, ']', 0);
    let colon = text::find(t, ':', 0);
    if t.len() > 0 && t[0] == '[' {
        if close >= t.len() {
            None
        } else if close + 1 == t.len() {
            Some((t.subrange(1, close), default_port as nat))
        } else if t[close + 1] == ':' {
            with_port(t.subrange(1, close), t.subrange(close + 2, t.len() as int))
        } else {
            None
        }
    } else if colon >= t.len() || text::find(t, ':', colon + 1) < t.len() {
        Some((t, default_port as nat))
    } else {
        with_port(t.subrange(0, colon), t.subrange(colon + 1, t.len() as int))
    }
}

/// The host and the port that a typed address names; none where what stands
/// for the port is none.
pub fn manual_target(target: &str, default_port: u16) -> (r: Option<Socket>)
    ensures
        match r {
            Some(s) => typed(target@, default_port) == Some((s.ip@, s.port as nat)),
            None => typed(target@, default_port) is None,
        },
{
    let t = text::trim(target);
    let v = text::to_chars(&t);
    if v.len() > 0 && v[0] == '[' {
        let close = text::find_char(&v, ']', 0);
        proof {
            text::lemma_find(v@, ']', 0);
        }
        if close == v.len() {
            return None;
        }
        let host = text::from_range(&v, 1, close);
        if close + 1 == v.len() {
            return Some(Socket { ip: host, port: default_port });
        }
        if v[close + 1] != ':' {
            return None;
        }
        let digits = text::from_range(&v, close + 2, v.len());
        return match text::parse_u16(&digits) {
            Some(port) => Some(Socket { ip: host, port }),
            None => None,
        };
    }
    let colon = text::find_char(&v, ':', 0);
    if colon == v.len() {
        return Some(Socket { ip: t, port: default_port });
    }
    if text::find_char(&v, ':', colon + 1) < v.len() {
        return Some(Socket { ip: t, port: default_port });
    }
    let host = text::from_range(&v, 0, colon);
    let digits = text::from_range(&v, colon + 1, v.len());
    match text::parse_u16(&digits) {
        Some(port) => Some(Socket { ip: host, port }),
        None => None,
    }
}

// ---------------------------------------------------------------------------
// Laws
// ---------------------------------------------------------------------------

/// Law: a beacon survives its text record. Where its texts are such as are
/// shown, what the record gives is the beacon.
pub proof fn law_a_beacon_round_trips(b: Beacon, back: Beacon)
    requires
        shown(b.name@) == b.name@,
        shown(b.accelerator@) == b.accelerator@,
        announced(b.record(), b.addresses, b.peer_port, back),
    ensures
        back.id == b.id,
        back.name@ == b.name@,
        back.peer_port == b.peer_port,
        back.addresses == b.addresses,
        back.can_launch == b.can_launch,
        back.accelerator@ == b.accelerator@,
{
    lemma_record_entries(b);
    law_identity_round_trip(b.id);
    reveal_strlit("0");
    reveal_strlit("1");
    assert("0"@[0] != "1"@[0]);
}

/// Law: a beacon's text record always reads.
pub proof fn law_a_record_names_its_machine(b: Beacon)
    ensures
        entry(b.record(), "id"@, 0) matches Some(s) && spelt(s, b.id),
{
    lemma_record_entries(b);
    law_identity_round_trip(b.id);
}

proof fn lemma_record_entries(b: Beacon)
    ensures
        entry(b.record(), "id"@, 0) == Some(b.id.hex()),
        entry(b.record(), "name"@, 0) == Some(b.name@),
        entry(b.record(), "cl"@, 0) == Some(
            if b.can_launch {
                "1"@
            } else {
                "0"@
            },
        ),
        entry(b.record(), "gpu"@, 0) == Some(b.accelerator@),
{
    reveal_with_fuel(entry, 5);
    reveal_strlit("id");
    reveal_strlit("name");
    reveal_strlit("cl");
    reveal_strlit("gpu");
    assert("id"@.len() == 2 && "name"@.len() == 4 && "cl"@.len() == 2 && "gpu"@.len() == 3);
    assert("id"@[0] != "cl"@[0]);
}

/// Law: an address that is nothing but colons gets the default port; it is not
/// torn at a colon.
pub proof fn law_a_bare_literal_is_not_torn(target: Seq<char>, port: u16, i: int, j: int)
    requires
        0 <= i < j < text::trimmed(target).len(),
        text::trimmed(target)[0] != '[',
        text::trimmed(target)[i] == ':',
        text::trimmed(target)[j] == ':',
    ensures
        typed(target, port) == Some((text::trimmed(target), port as nat)),
{
    let t = text::trimmed(target);
    text::lemma_find(t, ':', 0);
    let c = text::find(t, ':', 0);
    text::lemma_find(t, ':', c + 1);
}

/// Law: a target that a person typed is read as it is written. A host with a
/// port behind it, in brackets or not, gives both; one without gives the
/// default port.
pub proof fn law_a_typed_target_is_read(host: Seq<char>, port: u16, default_port: u16)
    requires
        !host.contains(':'),
        !host.contains(']'),
        host.len() > 0,
        host[0] != '[',
        !text::is_space(host[0]),
        !text::is_space(host.last()),
    ensures
        typed(host, default_port) == Some((host, default_port as nat)),
        typed(host + ":"@ + text::dec(port as nat), default_port) == Some((host, port as nat)),
        typed("["@ + host + "]"@, default_port) == Some((host, default_port as nat)),
        typed("["@ + host + "]:"@ + text::dec(port as nat), default_port) == Some(
            (host, port as nat),
        ),
{
    reveal_strlit(":");
    reveal_strlit("[");
    reveal_strlit("]");
    reveal_strlit("]:");
    let n = text::dec(port as nat);
    text::lemma_dec(port as nat);
    text::law_a_number_is_read_back(port as nat);
    assert(n.len() > 0);
    assert(text::is_digit(n.last()));
    lemma_nothing_trimmed(host);
    text::lemma_find(host, ':', 0);
    let a = host + ":"@ + n;
    assert(a[0] == host[0] && a.last() == n.last());
    lemma_nothing_trimmed(a);
    text::lemma_find(a, ':', 0);
    let i = text::find(a, ':', 0);
    assert(a[host.len() as int] == ':');
    if i < host.len() {
        assert(host[i] == ':');
    }
    assert(i == host.len());
    text::lemma_find(a, ':', i + 1);
    let j = text::find(a, ':', i + 1);
    if j < a.len() {
        assert(a[j] == n[j - i - 1]);
        assert(text::is_digit(n[j - i - 1]));
    }
    assert(a.subrange(0, i) =~= host);
    assert(a.subrange(i + 1, a.len() as int) =~= n);
    let b = "["@ + host + "]"@;
    let c = "["@ + host + "]:"@ + n;
    assert(b.subrange(1, host.len() as int + 1) =~= host);
    assert(c.subrange(1, host.len() as int + 1) =~= host);
    lemma_bracketed(host, b);
    lemma_bracketed(host, c);
    assert(c[host.len() as int + 2] == ':');
    assert(c.subrange(host.len() as int + 3, c.len() as int) =~= n);
}

proof fn lemma_bracketed(host: Seq<char>, t: Seq<char>)
    requires
        !host.contains(']'),
        t.len() >= host.len() + 2,
        t[0] == '[',
        t.subrange(1, host.len() as int + 1) == host,
        t[host.len() as int + 1] == ']',
        !text::is_space(t.last()),
    ensures
        text::trimmed(t) == t,
        text::find(t, ']', 0) == host.len() + 1,
{
    lemma_nothing_trimmed(t);
    text::lemma_find(t, ']', 0);
    let i = text::find(t, ']', 0);
    if 0 < i <= host.len() {
        assert(t[i] == t.subrange(1, host.len() as int + 1)[i - 1]);
        assert(host.contains(']'));
    }
}

proof fn lemma_nothing_trimmed(t: Seq<char>)
    requires
        t.len() > 0,
        !text::is_space(t[0]),
        !text::is_space(t.last()),
    ensures
        text::trimmed(t) == t,
{
    assert(text::skip_space(t, 0) == 0);
    assert(text::drop_space(t, 0, t.len() as int) == t.len());
    assert(t.subrange(0, t.len() as int) =~= t);
}

/// Law: of several entries under one key the first counts, and without one
/// there is none.
pub proof fn law_the_first_entry_counts(
    props: Seq<(Seq<char>, Seq<char>)>,
    key: Seq<char>,
    i: int,
)
    ensures
        0 <= i < props.len() && props[i].0 == key && (forall|k: int|
            0 <= k < i ==> (#[trigger] props[k]).0 != key) ==> entry(props, key, 0) == Some(
            props[i].1,
        ),
        (forall|k: int| 0 <= k < props.len() ==> (#[trigger] props[k]).0 != key) ==> entry(
            props,
            key,
            0,
        ) is None,
{
    if 0 <= i < props.len() && props[i].0 == key && (forall|k: int|
        0 <= k < i ==> (#[trigger] props[k]).0 != key) {
        lemma_entry_from(props, key, 0, i);
    }
    if forall|k: int| 0 <= k < props.len() ==> (#[trigger] props[k]).0 != key {
        lemma_no_entry(props, key, 0);
    }
}

proof fn lemma_entry_from(props: Seq<(Seq<char>, Seq<char>)>, key: Seq<char>, from: int, i: int)
    requires
        0 <= from <= i < props.len(),
        props[i].0 == key,
        forall|k: int| 0 <= k < i ==> (#[trigger] props[k]).0 != key,
    ensures
        entry(props, key, from) == Some(props[i].1),
    decreases i - from,
{
    if from < i {
        lemma_entry_from(props, key, from + 1, i);
    }
}

proof fn lemma_no_entry(props: Seq<(Seq<char>, Seq<char>)>, key: Seq<char>, from: int)
    requires
        0 <= from <= props.len(),
        forall|k: int| 0 <= k < props.len() ==> (#[trigger] props[k]).0 != key,
    ensures
        entry(props, key, from) is None,
    decreases props.len() - from,
{
    if from < props.len() {
        lemma_no_entry(props, key, from + 1);
    }
}

} // verus!
