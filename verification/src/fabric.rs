//! What links this machine has, and which of them a peer may be reached on.
//!
//! [`classify`] and [`reachable_addresses`] are functions of [`RawIface`]
//! values, so the whole selection policy can be held against a recorded
//! interface table. Reading the system to produce those values belongs to
//! whoever implements [`FabricProvider`].
use crate::order::{
    arrange, arranged, in_order, lemma_arranged, lemma_arranged_contains, lemma_stable, picked, Order,
};
use crate::text;
use vstd::prelude::*;

pub mod linux;
pub mod macos;

verus! {

/// What kind of link an address is on.
#[derive(Debug, Clone, Copy, PartialEq, Eq, Structural)]
pub enum LinkClass {
    InfiniBand,
    Roce,
    Ethernet,
    Wireless,
    /// Nobody has said: an absence of information, neither a preference nor a
    /// problem.
    Unverified,
    Virtual,
    Loopback,
}

impl LinkClass {
    /// How much a link is preferred.
    pub open spec fn standing(self) -> u8 {
        match self {
            LinkClass::InfiniBand => 5,
            LinkClass::Roce => 4,
            LinkClass::Ethernet => 3,
            LinkClass::Wireless => 2,
            LinkClass::Unverified => 1,
            LinkClass::Virtual => 0,
            LinkClass::Loopback => 0,
        }
    }

    /// How much a link is preferred.
    pub fn rank(&self) -> (r: u8)
        ensures
            r == self.standing(),
    {
        match self {
            LinkClass::InfiniBand => 5,
            LinkClass::Roce => 4,
            LinkClass::Ethernet => 3,
            LinkClass::Wireless => 2,
            LinkClass::Unverified => 1,
            LinkClass::Virtual => 0,
            LinkClass::Loopback => 0,
        }
    }

    /// Another machine can dial it.
    pub open spec fn dialable(self) -> bool {
        self != LinkClass::Virtual && self != LinkClass::Loopback
    }

    /// Another machine can dial it.
    pub fn usable_for_control(&self) -> (r: bool)
        ensures
            r == self.dialable(),
    {
        *self != LinkClass::Virtual && *self != LinkClass::Loopback
    }

    /// It can carry a collective.
    pub open spec fn collective(self) -> bool {
        self.dialable() && self != LinkClass::Wireless
    }

    /// It can carry a collective.
    pub fn usable_for_cluster(&self) -> (r: bool)
        ensures
            r == self.collective(),
    {
        self.usable_for_control() && *self != LinkClass::Wireless
    }

    /// A collective over it is correct but several times slower.
    pub open spec fn slow(self) -> bool {
        self == LinkClass::Ethernet || self == LinkClass::Wireless
    }

    /// A collective over it is correct but several times slower.
    pub fn warns(&self) -> (r: bool)
        ensures
            r == self.slow(),
    {
        *self == LinkClass::Ethernet || *self == LinkClass::Wireless
    }
}

/// An address of a machine, and the link it is on.
#[derive(Debug, Clone, PartialEq, Eq)]
pub struct NodeAddress {
    pub iface: String,
    pub addr: String,
    pub class: LinkClass,
    pub speed_mbps: Option<u32>,
    /// The length of the subnet's prefix; 0 where it is not known.
    pub prefix_len: u8,
    pub rdma: bool,
}

/// An address, as a value.
#[verifier::ext_equal]
pub struct Address {
    pub iface: Seq<char>,
    pub addr: Seq<char>,
    pub class: LinkClass,
    pub speed_mbps: Option<u32>,
    pub prefix_len: u8,
    pub rdma: bool,
}

impl View for NodeAddress {
    type V = Address;

    open spec fn view(&self) -> Address {
        Address {
            iface: self.iface@,
            addr: self.addr@,
            class: self.class,
            speed_mbps: self.speed_mbps,
            prefix_len: self.prefix_len,
            rdma: self.rdma,
        }
    }
}

impl NodeAddress {
    /// An equal address.
    pub fn copy(&self) -> (r: NodeAddress)
        ensures
            r == *self,
    {
        NodeAddress {
            iface: self.iface.clone(),
            addr: self.addr.clone(),
            class: self.class,
            speed_mbps: self.speed_mbps,
            prefix_len: self.prefix_len,
            rdma: self.rdma,
        }
    }
}

/// The values of addresses.
pub open spec fn address_views(v: Seq<NodeAddress>) -> Seq<Address> {
    v.map_values(|a: NodeAddress| a@)
}

/// Facts about one interface, as read from the system. No judgement is
/// applied here.
#[derive(Debug, Clone, PartialEq, Eq)]
pub struct RawIface {
    /// Interface name.
    pub name: String,
    /// IPv4 addresses bound to it, each as `host/prefix`. The prefix is the
    /// only thing that says which of several point-to-point links reaches a
    /// given peer.
    pub addrs: Vec<String>,
    /// Whether the kernel reports a carrier.
    pub carrier: bool,
    /// Negotiated speed in Mb/s, when the kernel reports one.
    pub speed_mbps: Option<u32>,
    /// ARPHRD type, 772 being loopback.
    pub arp_type: u32,
    /// Whether the interface has a wireless directory.
    pub wireless: bool,
    /// Whether an RDMA device is bound to it.
    pub rdma: bool,
}

/// An interface's facts, as values.
#[verifier::ext_equal]
pub struct IfaceFacts {
    pub name: Seq<char>,
    pub addrs: Seq<Seq<char>>,
    pub carrier: bool,
    pub speed_mbps: Option<u32>,
    pub arp_type: u32,
    pub wireless: bool,
    pub rdma: bool,
}

impl View for RawIface {
    type V = IfaceFacts;

    open spec fn view(&self) -> IfaceFacts {
        IfaceFacts {
            name: self.name@,
            addrs: text::views(self.addrs@),
            carrier: self.carrier,
            speed_mbps: self.speed_mbps,
            arp_type: self.arp_type,
            wireless: self.wireless,
            rdma: self.rdma,
        }
    }
}

/// The values of interfaces.
pub open spec fn iface_views(v: Seq<RawIface>) -> Seq<IfaceFacts> {
    v.map_values(|a: RawIface| a@)
}

/// The ARPHRD type of a loopback interface.
pub const ARPHRD_LOOPBACK: u32 = 772;

/// Interface names that are always software constructs, by how they begin.
/// The first seven are Linux's, the others those of macOS; none of them
/// names physical hardware anywhere.
pub open spec fn software_name(name: Seq<char>) -> bool {
    ||| text::begins(name, "docker"@)
    ||| text::begins(name, "br-"@)
    ||| text::begins(name, "veth"@)
    ||| text::begins(name, "virbr"@)
    ||| text::begins(name, "dummy"@)
    ||| text::begins(name, "tun"@)
    ||| text::begins(name, "tap"@)
    ||| text::begins(name, "bridge"@)
    ||| text::begins(name, "utun"@)
    ||| text::begins(name, "awdl"@)
    ||| text::begins(name, "llw"@)
    ||| text::begins(name, "ap1"@)
    ||| text::begins(name, "vmenet"@)
    ||| text::begins(name, "anpi"@)
    ||| text::begins(name, "gif"@)
    ||| text::begins(name, "stf"@)
}

/// What kind of link an interface is: loopback first because it is
/// unambiguous, then the software constructs by name, then RDMA, then the
/// physical classes. An RDMA-backed port is RoCE: true InfiniBand cannot be
/// told apart from the interface alone.
pub open spec fn class_of(raw: RawIface) -> LinkClass {
    if raw.arp_type == ARPHRD_LOOPBACK || raw.name@ == "lo"@ {
        LinkClass::Loopback
    } else if software_name(raw.name@) {
        LinkClass::Virtual
    } else if raw.rdma {
        LinkClass::Roce
    } else if raw.wireless {
        LinkClass::Wireless
    } else {
        LinkClass::Ethernet
    }
}

fn is_software(name: &str) -> (r: bool)
    ensures
        r == software_name(name@),
{
    text::starts_with(name, "docker") || text::starts_with(name, "br-") || text::starts_with(
        name,
        "veth",
    ) || text::starts_with(name, "virbr") || text::starts_with(name, "dummy") || text::starts_with(
        name,
        "tun",
    ) || text::starts_with(name, "tap") || text::starts_with(name, "bridge") || text::starts_with(
        name,
        "utun",
    ) || text::starts_with(name, "awdl") || text::starts_with(name, "llw") || text::starts_with(
        name,
        "ap1",
    ) || text::starts_with(name, "vmenet") || text::starts_with(name, "anpi") || text::starts_with(
        name,
        "gif",
    ) || text::starts_with(name, "stf")
}

/// Decide what kind of link an interface is.
pub fn classify(raw: &RawIface) -> (c: LinkClass)
    ensures
        c == class_of(*raw),
{
    if raw.arp_type == ARPHRD_LOOPBACK || text::same(&raw.name, "lo") {
        return LinkClass::Loopback;
    }
    if is_software(&raw.name) {
        return LinkClass::Virtual;
    }
    if raw.rdma {
        return LinkClass::Roce;
    }
    if raw.wireless {
        return LinkClass::Wireless;
    }
    LinkClass::Ethernet
}

/// The host part of `10.10.10.9/30`.
pub open spec fn host_of(raw: Seq<char>) -> Seq<char> {
    match text::halves(raw, '/') {
        Some(p) => p.0,
        None => raw,
    }
}

/// The prefix of `10.10.10.9/30`. A bare address, or one whose prefix does
/// not read, is of an unknown subnet: 0, never a guess.
pub open spec fn prefix_of(raw: Seq<char>) -> u8 {
    match text::halves(raw, '/') {
        Some(p) => match text::number(p.1, 255) {
            Some(n) => n as u8,
            None => 0,
        },
        None => 0,
    }
}

/// Split `10.10.10.9/30` into its host and prefix.
pub fn split_prefix(raw: &str) -> (r: (String, u8))
    ensures
        r.0@ == host_of(raw@),
        r.1 == prefix_of(raw@),
{
    match text::split_once(raw, '/') {
        Some((host, len)) => {
            let prefix: u8 = match text::parse_u8(&len) {
                Some(n) => n,
                None => 0,
            };
            (host, prefix)
        },
        None => (text::copy(raw), 0),
    }
}

/// One address of an interface, as a peer would see it.
pub open spec fn offered(raw: RawIface, k: int) -> Address {
    Address {
        iface: raw.name@,
        addr: host_of(raw.addrs@[k]@),
        class: class_of(raw),
        speed_mbps: raw.speed_mbps,
        prefix_len: prefix_of(raw.addrs@[k]@),
        rdma: raw.rdma,
    }
}

/// The first `n` addresses of an interface, as a peer would see them.
pub open spec fn offered_by(raw: RawIface, n: int) -> Seq<Address> {
    Seq::new(n as nat, |k: int| offered(raw, k))
}

/// An interface whose addresses other machines can dial.
pub open spec fn offers(raw: RawIface) -> bool {
    raw.carrier && class_of(raw).dialable()
}

/// The dialable addresses of the first `n` interfaces, as they are listed.
pub open spec fn candidates(raws: Seq<RawIface>, n: int) -> Seq<Address>
    decreases n,
{
    if n <= 0 {
        Seq::empty()
    } else if offers(raws[n - 1]) {
        candidates(raws, n - 1) + offered_by(raws[n - 1], raws[n - 1].addrs@.len() as int)
    } else {
        candidates(raws, n - 1)
    }
}

/// The speed of a link; 0 where it is not known.
pub open spec fn known_speed(s: Option<u32>) -> u32 {
    match s {
        Some(n) => n,
        None => 0,
    }
}

/// Best link first, then fastest, then by name.
pub struct BestLink;

impl Order<NodeAddress> for BestLink {
    open spec fn lt(a: NodeAddress, b: NodeAddress) -> bool {
        let ra = a.class.standing();
        let rb = b.class.standing();
        let sa = known_speed(a.speed_mbps);
        let sb = known_speed(b.speed_mbps);
        ra > rb || (ra == rb && (sa > sb || (sa == sb && text::precedes(a.iface@, b.iface@))))
    }

    fn less(a: &NodeAddress, b: &NodeAddress) -> (r: bool) {
        let ra = a.class.rank();
        let rb = b.class.rank();
        let sa: u32 = match a.speed_mbps {
            Some(n) => n,
            None => 0,
        };
        let sb: u32 = match b.speed_mbps {
            Some(n) => n,
            None => 0,
        };
        ra > rb || (ra == rb && (sa > sb || (sa == sb && text::before(&a.iface, &b.iface))))
    }

    proof fn asymmetric(a: NodeAddress, b: NodeAddress) {
        text::lemma_precedes_total(a.iface@, b.iface@);
    }

    proof fn chained(a: NodeAddress, b: NodeAddress, c: NodeAddress) {
        if a.class.standing() == b.class.standing() && b.class.standing() == c.class.standing()
            && known_speed(a.speed_mbps) == known_speed(b.speed_mbps) && known_speed(b.speed_mbps)
            == known_speed(c.speed_mbps) {
            text::lemma_not_precedes_transitive(a.iface@, b.iface@, c.iface@);
        }
    }
}

/// The addresses a peer may be reached on: the dialable ones, sorted.
pub open spec fn is_reachable_list(raws: Seq<RawIface>, r: Seq<NodeAddress>) -> bool {
    exists|c: Seq<NodeAddress>| #[trigger]
        address_views(c) == candidates(raws, raws.len() as int) && r == arranged::<
            NodeAddress,
            BestLink,
        >(c)
}

/// Turn a raw interface table into the addresses a peer may be reached on.
///
/// Drops anything with no address, no carrier, or a link that is reachable
/// only from this machine, then sorts best-link-first. Whether a link can
/// carry a collective is another question, asked where it belongs: a laptop
/// on Wi-Fi cannot, and still has to say where to dial it.
pub fn reachable_addresses(raws: &Vec<RawIface>) -> (r: Vec<NodeAddress>)
    ensures
        is_reachable_list(raws@, r@),
{
    let mut out: Vec<NodeAddress> = Vec::new();
    let mut i: usize = 0;
    assert(address_views(out@) =~= candidates(raws@, 0));
    while i < raws.len()
        invariant
            i <= raws.len(),
            address_views(out@) == candidates(raws@, i as int),
        decreases raws.len() - i,
    {
        let class = classify(&raws[i]);
        if raws[i].carrier && class.usable_for_control() {
            let ghost head = address_views(out@);
            let raw = &raws[i];
            let mut k: usize = 0;
            assert(head + offered_by(*raw, 0) =~= head);
            while k < raw.addrs.len()
                invariant
                    k <= raw.addrs.len(),
                    class == class_of(*raw),
                    address_views(out@) == head + offered_by(*raw, k as int),
                decreases raw.addrs.len() - k,
            {
                let (addr, prefix_len) = split_prefix(&raw.addrs[k]);
                let ghost was = out@;
                let next = NodeAddress {
                    iface: raw.name.clone(),
                    addr,
                    class,
                    speed_mbps: raw.speed_mbps,
                    prefix_len,
                    rdma: raw.rdma,
                };
                out.push(next);
                assert(next@ =~= offered(*raw, k as int));
                assert(address_views(out@) =~= address_views(was).push(next@));
                k += 1;
                assert(address_views(out@) =~= head + offered_by(*raw, k as int));
            }
        }
        i += 1;
        assert(address_views(out@) =~= candidates(raws@, i as int));
    }
    arrange::<NodeAddress, BestLink>(out)
}

/// Reads the machine's links.
pub trait FabricProvider {
    /// Every interface this machine has, unfiltered.
    fn raw_interfaces(&self) -> Result<Vec<RawIface>, String>;

    /// Addresses a peer may be reached on, best link first.
    fn addresses(&self) -> (r: Result<Vec<NodeAddress>, String>)
        default_ensures
            exists|raws: Result<Vec<RawIface>, String>|
                {
                    &&& #[trigger] call_ensures(Self::raw_interfaces, (self,), raws)
                    &&& match raws {
                        Ok(t) => r matches Ok(v) && is_reachable_list(t@, v@),
                        Err(e) => r == Err::<Vec<NodeAddress>, String>(e),
                    }
                },
    {
        match self.raw_interfaces() {
            Ok(raws) => Ok(reachable_addresses(&raws)),
            Err(e) => Err(e),
        }
    }
}

/// A fabric provider backed by a fixed table.
#[derive(Debug, Clone, Default)]
pub struct StaticFabric {
    /// The table to answer with.
    pub ifaces: Vec<RawIface>,
}

/// The same facts.
pub open spec fn same_iface(a: RawIface, b: RawIface) -> bool {
    &&& a.name == b.name
    &&& a.addrs@ == b.addrs@
    &&& a.carrier == b.carrier
    &&& a.speed_mbps == b.speed_mbps
    &&& a.arp_type == b.arp_type
    &&& a.wireless == b.wireless
    &&& a.rdma == b.rdma
}

impl FabricProvider for StaticFabric {
    fn raw_interfaces(&self) -> (r: Result<Vec<RawIface>, String>)
        ensures
            r matches Ok(v) && v@.len() == self.ifaces@.len() && forall|i: int|
                0 <= i < v@.len() ==> same_iface(#[trigger] v@[i], self.ifaces@[i]),
    {
        let mut out: Vec<RawIface> = Vec::new();
        let mut i: usize = 0;
        while i < self.ifaces.len()
            invariant
                i <= self.ifaces.len(),
                out@.len() == i,
                forall|k: int| 0 <= k < i ==> same_iface(#[trigger] out@[k], self.ifaces@[k]),
            decreases self.ifaces.len() - i,
        {
            let raw = &self.ifaces[i];
            out.push(
                RawIface {
                    name: raw.name.clone(),
                    addrs: crate::bench::event::copy_strings(&raw.addrs),
                    carrier: raw.carrier,
                    speed_mbps: raw.speed_mbps,
                    arp_type: raw.arp_type,
                    wireless: raw.wireless,
                    rdma: raw.rdma,
                },
            );
            i += 1;
        }
        Ok(out)
    }

    fn addresses(&self) -> (r: Result<Vec<NodeAddress>, String>)
        ensures
            r matches Ok(v) && is_reachable_list(self.ifaces@, v@),
    {
        Ok(reachable_addresses(&self.ifaces))
    }
}

// ---------------------------------------------------------------------------
// Laws
// ---------------------------------------------------------------------------

proof fn lemma_candidate(raws: Seq<RawIface>, n: int, i: int, k: int)
    requires
        0 <= i < n <= raws.len(),
        offers(raws[i]),
        0 <= k < raws[i].addrs@.len(),
    ensures
        candidates(raws, n).contains(offered(raws[i], k)),
    decreases n,
{
    let c = candidates(raws, n);
    if i == n - 1 {
        let head = candidates(raws, n - 1);
        assert(c[head.len() + k] == offered(raws[i], k));
    } else {
        lemma_candidate(raws, n - 1, i, k);
        let head = candidates(raws, n - 1);
        let j = choose|j: int| 0 <= j < head.len() && head[j] == offered(raws[i], k);
        assert(c[j] == offered(raws[i], k));
    }
}

proof fn lemma_candidate_source(raws: Seq<RawIface>, n: int, j: int) -> (r: (int, int))
    requires
        0 <= n <= raws.len(),
        0 <= j < candidates(raws, n).len(),
    ensures
        0 <= r.0 < n,
        offers(raws[r.0]),
        0 <= r.1 < raws[r.0].addrs@.len(),
        candidates(raws, n)[j] == offered(raws[r.0], r.1),
    decreases n,
{
    let head = candidates(raws, n - 1);
    if j < head.len() {
        lemma_candidate_source(raws, n - 1, j)
    } else {
        (n - 1, j - head.len())
    }
}

/// Law: what other machines can dial is offered, and nothing else is. Every
/// address of an interface that has a carrier and is no loopback or software
/// construct is in the list, and every address in the list is one of these;
/// a link that is reachable from here and from nowhere else is never offered.
pub proof fn law_only_dialable_addresses_are_offered(
    raws: Seq<RawIface>,
    r: Seq<NodeAddress>,
    i: int,
    k: int,
    j: int,
)
    requires
        is_reachable_list(raws, r),
        0 <= i < raws.len(),
        0 <= k < raws[i].addrs@.len(),
        0 <= j < r.len(),
    ensures
        offers(raws[i]) ==> exists|m: int| 0 <= m < r.len() && #[trigger] r[m]@ == offered(raws[i], k),
        r[j].class.dialable(),
        exists|a: int, b: int|
            #![trigger raws[a].addrs@[b]]
            0 <= a < raws.len() && offers(raws[a]) && 0 <= b < raws[a].addrs@.len() && r[j]@
                == offered(raws[a], b),
{
    let c = choose|c: Seq<NodeAddress>| #[trigger]
        address_views(c) == candidates(raws, raws.len() as int) && r == arranged::<
            NodeAddress,
            BestLink,
        >(c);
    let n = raws.len() as int;
    assert(address_views(c).len() == c.len());
    if offers(raws[i]) {
        lemma_candidate(raws, n, i, k);
        let p = choose|p: int|
            0 <= p < candidates(raws, n).len() && candidates(raws, n)[p] == offered(raws[i], k);
        assert(address_views(c)[p] == c[p]@);
        lemma_arranged_contains::<NodeAddress, BestLink>(c, c[p]);
        assert(c.contains(c[p]));
        let m = choose|m: int| 0 <= m < r.len() && r[m] == c[p];
        assert(r[m]@ == offered(raws[i], k));
    }
    lemma_arranged_contains::<NodeAddress, BestLink>(c, r[j]);
    assert(r.contains(r[j]));
    let p = choose|p: int| 0 <= p < c.len() && c[p] == r[j];
    assert(address_views(c)[p] == c[p]@);
    let (a, b) = lemma_candidate_source(raws, n, p);
    assert(r[j]@ == offered(raws[a], b));
    assert(raws[a].addrs@[b] == raws[a].addrs@[b]);
}

/// Law: the best link leads. No address is listed before one on a link of
/// higher standing, nor, on links of one standing, before one on a faster.
pub proof fn law_the_best_link_leads(raws: Seq<RawIface>, r: Seq<NodeAddress>, i: int, j: int)
    requires
        is_reachable_list(raws, r),
        0 <= i < j < r.len(),
    ensures
        r[i].class.standing() >= r[j].class.standing(),
        r[i].class.standing() == r[j].class.standing() ==> known_speed(r[i].speed_mbps)
            >= known_speed(r[j].speed_mbps),
{
    let c = choose|c: Seq<NodeAddress>| #[trigger]
        address_views(c) == candidates(raws, raws.len() as int) && r == arranged::<
            NodeAddress,
            BestLink,
        >(c);
    lemma_arranged::<NodeAddress, BestLink>(c);
    assert(in_order::<NodeAddress, BestLink>(r));
    assert(!BestLink::lt(r[j], r[i]));
}

/// One address is listed before another: it is on the better link, on a
/// faster one of the same standing, or on one that comes first by name.
pub open spec fn leads(a: Address, b: Address) -> bool {
    let ra = a.class.standing();
    let rb = b.class.standing();
    let sa = known_speed(a.speed_mbps);
    let sb = known_speed(b.speed_mbps);
    ra > rb || (ra == rb && (sa > sb || (sa == sb && text::precedes(a.iface, b.iface))))
}

/// The addresses on the interface of a name.
pub open spec fn on_iface(s: Seq<Address>, name: Seq<char>) -> Seq<Address> {
    picked(s, |a: Address| a.iface == name)
}

/// No address leads one that is listed before it.
pub open spec fn best_first(s: Seq<Address>) -> bool {
    forall|i: int, j: int| 0 <= i < j < s.len() ==> !leads(#[trigger] s[j], #[trigger] s[i])
}

/// No two interfaces of a table have one name.
pub open spec fn names_differ(t: Seq<IfaceFacts>) -> bool {
    forall|i: int, j: int| 0 <= i < j < t.len() ==> (#[trigger] t[i]).name != (#[trigger] t[j]).name
}

proof fn lemma_on_iface_append(a: Seq<Address>, b: Seq<Address>, name: Seq<char>)
    ensures
        (forall|i: int| 0 <= i < b.len() ==> (#[trigger] b[i]).iface == name) ==> on_iface(
            a + b,
            name,
        ) == on_iface(a, name) + b,
        (forall|i: int| 0 <= i < b.len() ==> (#[trigger] b[i]).iface != name) ==> on_iface(
            a + b,
            name,
        ) == on_iface(a, name),
    decreases b.len(),
{
    if b.len() == 0 {
        assert(a + b =~= a);
        assert(on_iface(a, name) + b =~= on_iface(a, name));
    } else {
        let c = b.drop_last();
        lemma_on_iface_append(a, c, name);
        assert((a + b).drop_last() =~= a + c);
        assert((a + b).last() == b[b.len() - 1]);
        if forall|i: int| 0 <= i < b.len() ==> (#[trigger] b[i]).iface == name {
            assert forall|i: int| 0 <= i < c.len() implies (#[trigger] c[i]).iface == name by {
                assert(c[i] == b[i]);
            }
            assert((on_iface(a, name) + c).push(b.last()) =~= on_iface(a, name) + b);
        }
        if forall|i: int| 0 <= i < b.len() ==> (#[trigger] b[i]).iface != name {
            assert forall|i: int| 0 <= i < c.len() implies (#[trigger] c[i]).iface != name by {
                assert(c[i] == b[i]);
            }
        }
    }
}

proof fn lemma_on_iface_contains(s: Seq<Address>, name: Seq<char>, x: Address)
    ensures
        on_iface(s, name).contains(x) <==> s.contains(x) && x.iface == name,
    decreases s.len(),
{
    let all = on_iface(s, name);
    if s.len() > 0 {
        let front = s.drop_last();
        let some = on_iface(front, name);
        lemma_on_iface_contains(front, name, x);
        if all.contains(x) {
            let i = choose|i: int| 0 <= i < all.len() && all[i] == x;
            if i < some.len() {
                assert(some[i] == x);
                let k = choose|k: int| 0 <= k < front.len() && front[k] == x;
                assert(s[k] == x);
            } else {
                assert(s[s.len() - 1] == x);
            }
        }
        if s.contains(x) && x.iface == name {
            let k = choose|k: int| 0 <= k < s.len() && s[k] == x;
            if k < front.len() {
                assert(front[k] == x);
                let i = choose|i: int| 0 <= i < some.len() && some[i] == x;
                assert(all[i] == x);
            } else {
                assert(all[all.len() - 1] == x);
            }
        }
    }
}

/// Two lists that are sorted, and that agree on every interface, are one.
proof fn lemma_one_order(a: Seq<Address>, b: Seq<Address>)
    requires
        best_first(a),
        best_first(b),
        forall|n: Seq<char>| #[trigger] on_iface(a, n) == on_iface(b, n),
    ensures
        a == b,
    decreases a.len(),
{
    if a.len() == 0 {
        if b.len() > 0 {
            lemma_on_iface_contains(a, b[0].iface, b[0]);
            lemma_on_iface_contains(b, b[0].iface, b[0]);
            assert(b.contains(b[0]));
        }
        assert(a =~= b);
    } else {
        let x = a.last();
        assert(a[a.len() - 1] == x);
        assert(a.contains(x));
        lemma_on_iface_contains(a, x.iface, x);
        lemma_on_iface_contains(b, x.iface, x);
        assert(on_iface(a, x.iface) == on_iface(b, x.iface));
        assert(b.contains(x));
        let y = b.last();
        assert(b[b.len() - 1] == y);
        if y.iface != x.iface {
            assert(b.contains(y));
            lemma_on_iface_contains(b, y.iface, y);
            lemma_on_iface_contains(a, y.iface, y);
            assert(on_iface(a, y.iface) == on_iface(b, y.iface));
            let i = choose|i: int| 0 <= i < a.len() && a[i] == y;
            let j = choose|j: int| 0 <= j < b.len() && b[j] == x;
            assert(!leads(a[a.len() - 1], a[i]));
            assert(!leads(b[b.len() - 1], b[j]));
            text::lemma_precedes_total(x.iface, y.iface);
        }
        assert(on_iface(a, x.iface).last() == x);
        assert(on_iface(b, x.iface).last() == y);
        let c = a.drop_last();
        let d = b.drop_last();
        assert forall|i: int, j: int| 0 <= i < j < c.len() implies !leads(
            #[trigger] c[j],
            #[trigger] c[i],
        ) by {
            assert(c[j] == a[j] && c[i] == a[i]);
        }
        assert forall|i: int, j: int| 0 <= i < j < d.len() implies !leads(
            #[trigger] d[j],
            #[trigger] d[i],
        ) by {
            assert(d[j] == b[j] && d[i] == b[i]);
        }
        assert forall|n: Seq<char>| #[trigger] on_iface(c, n) == on_iface(d, n) by {
            assert(on_iface(a, n) == on_iface(b, n));
            if x.iface == n {
                assert(on_iface(c, n) =~= on_iface(a, n).drop_last());
                assert(on_iface(d, n) =~= on_iface(b, n).drop_last());
            }
        }
        lemma_one_order(c, d);
        assert(a =~= c.push(x));
        assert(b =~= d.push(y));
    }
}

/// What a table offers on the interface of a name, from its first `n` on.
proof fn lemma_candidates_on(raws: Seq<RawIface>, n: int, name: Seq<char>)
    requires
        names_differ(iface_views(raws)),
        0 <= n <= raws.len(),
    ensures
        forall|i: int|
            0 <= i < n && (#[trigger] raws[i]).name@ == name ==> on_iface(
                candidates(raws, n),
                name,
            ) == (if offers(raws[i]) {
                offered_by(raws[i], raws[i].addrs@.len() as int)
            } else {
                Seq::empty()
            }),
        (forall|i: int| 0 <= i < n ==> (#[trigger] raws[i]).name@ != name) ==> on_iface(
            candidates(raws, n),
            name,
        ) == Seq::<Address>::empty(),
    decreases n,
{
    if n > 0 {
        lemma_candidates_on(raws, n - 1, name);
        let raw = raws[n - 1];
        let more = offered_by(raw, raw.addrs@.len() as int);
        lemma_on_iface_append(candidates(raws, n - 1), more, name);
        assert forall|k: int| 0 <= k < more.len() implies (#[trigger] more[k]).iface == raw.name@ by {
        }
        assert forall|i: int| 0 <= i < n - 1 implies (#[trigger] raws[i]).name@ != raw.name@ by {
            assert(iface_views(raws)[i] == raws[i]@);
            assert(iface_views(raws)[n - 1] == raw@);
        }
        if raw.name@ == name {
            assert(on_iface(candidates(raws, n - 1), name) =~= Seq::empty());
            assert(Seq::<Address>::empty() + more =~= more);
        }
    }
}

spec fn is_on(name: Seq<char>) -> spec_fn(NodeAddress) -> bool {
    |a: NodeAddress| a.iface@ == name
}

proof fn lemma_views_picked(s: Seq<NodeAddress>, name: Seq<char>)
    ensures
        address_views(picked(s, is_on(name))) == on_iface(
            address_views(s),
            name,
        ),
    decreases s.len(),
{
    let p = is_on(name);
    if s.len() == 0 {
        assert(address_views(picked(s, p)) =~= on_iface(address_views(s), name));
    } else {
        lemma_views_picked(s.drop_last(), name);
        assert(address_views(s).drop_last() =~= address_views(s.drop_last()));
        assert(address_views(s).last() == s.last()@);
        if p(s.last()) {
            assert(address_views(picked(s.drop_last(), p).push(s.last())) =~= address_views(
                picked(s.drop_last(), p),
            ).push(s.last()@));
        }
    }
}

/// A reachable list is sorted, and lists for each interface what the table
/// offers on it.
proof fn lemma_reachable_list(raws: Seq<RawIface>, r: Seq<NodeAddress>)
    requires
        names_differ(iface_views(raws)),
        is_reachable_list(raws, r),
    ensures
        best_first(address_views(r)),
        forall|n: Seq<char>| #[trigger]
            on_iface(address_views(r), n) == on_iface(candidates(raws, raws.len() as int), n),
{
    let all = candidates(raws, raws.len() as int);
    let c = choose|c: Seq<NodeAddress>| #[trigger]
        address_views(c) == all && r == arranged::<NodeAddress, BestLink>(c);
    lemma_arranged::<NodeAddress, BestLink>(c);
    let v = address_views(r);
    assert forall|i: int, j: int| 0 <= i < j < v.len() implies !leads(
        #[trigger] v[j],
        #[trigger] v[i],
    ) by {
        assert(!BestLink::lt(r[j], r[i]));
    }
    assert forall|n: Seq<char>| #[trigger] on_iface(v, n) == on_iface(all, n) by {
        let p = is_on(n);
        assert forall|i: int, j: int|
            0 <= i < c.len() && 0 <= j < c.len() && p(c[i]) && p(c[j]) implies !BestLink::lt(
            #[trigger] c[i],
            #[trigger] c[j],
        ) by {
            assert(address_views(c)[i] == c[i]@ && address_views(c)[j] == c[j]@);
            let (a, _) = lemma_candidate_source(raws, raws.len() as int, i);
            let (b, _) = lemma_candidate_source(raws, raws.len() as int, j);
            assert(iface_views(raws)[a] == raws[a]@ && iface_views(raws)[b] == raws[b]@);
            assert(a == b);
            text::lemma_precedes_irreflexive(n);
        }
        lemma_stable::<NodeAddress, BestLink>(c, p);
        lemma_views_picked(c, n);
        lemma_views_picked(r, n);
    }
}

/// Law: the order in which the system lists its interfaces does not show. A
/// table in another order, in which no two interfaces have one name, gives
/// the same addresses in the same order: links that are level go by name,
/// and the addresses of one interface stay as they are.
pub proof fn law_the_order_of_the_table_does_not_show(
    raws: Seq<RawIface>,
    other: Seq<RawIface>,
    r: Seq<NodeAddress>,
    s: Seq<NodeAddress>,
)
    requires
        names_differ(iface_views(raws)),
        iface_views(raws).to_multiset() == iface_views(other).to_multiset(),
        is_reachable_list(raws, r),
        is_reachable_list(other, s),
    ensures
        address_views(r) == address_views(s),
{
    broadcast use vstd::seq_lib::group_to_multiset_ensures;

    let t = iface_views(raws);
    let u = iface_views(other);
    t.to_multiset_ensures();
    u.to_multiset_ensures();
    assert forall|x: IfaceFacts| t.contains(x) == u.contains(x) by {
        assert(t.contains(x) <==> t.to_multiset().count(x) > 0);
        assert(u.contains(x) <==> u.to_multiset().count(x) > 0);
    }
    assert(t.no_duplicates());
    t.lemma_multiset_has_no_duplicates();
    u.lemma_multiset_has_no_duplicates_conv();
    assert forall|i: int, j: int| 0 <= i < j < u.len() implies (#[trigger] u[i]).name != (
    #[trigger] u[j]).name by {
        assert(u.contains(u[i]) && u.contains(u[j]));
        assert(t.contains(u[i]) && t.contains(u[j]));
        let a = choose|a: int| 0 <= a < t.len() && t[a] == u[i];
        let b = choose|b: int| 0 <= b < t.len() && t[b] == u[j];
        assert(a != b);
    }
    lemma_reachable_list(raws, r);
    lemma_reachable_list(other, s);
    let p = raws.len() as int;
    let q = other.len() as int;
    assert forall|n: Seq<char>| #[trigger]
        on_iface(address_views(r), n) == on_iface(address_views(s), n) by {
        lemma_candidates_on(raws, p, n);
        lemma_candidates_on(other, q, n);
        if exists|i: int| 0 <= i < p && (#[trigger] raws[i]).name@ == n {
            let i = choose|i: int| 0 <= i < p && (#[trigger] raws[i]).name@ == n;
            assert(t[i] == raws[i]@);
            assert(t.contains(t[i]));
            let j = choose|j: int| 0 <= j < u.len() && u[j] == t[i];
            assert(u[j] == other[j]@);
            lemma_same_offer(raws[i], other[j]);
        } else if exists|j: int| 0 <= j < q && (#[trigger] other[j]).name@ == n {
            let j = choose|j: int| 0 <= j < q && (#[trigger] other[j]).name@ == n;
            assert(u[j] == other[j]@);
            assert(u.contains(u[j]));
            let i = choose|i: int| 0 <= i < t.len() && t[i] == u[j];
            assert(t[i] == raws[i]@);
            assert(raws[i].name@ == n);
        }
    }
    lemma_one_order(address_views(r), address_views(s));
}

proof fn lemma_same_offer(a: RawIface, b: RawIface)
    requires
        a@ == b@,
    ensures
        offers(a) == offers(b),
        offered_by(a, a.addrs@.len() as int) == offered_by(b, b.addrs@.len() as int),
{
    assert(text::views(a.addrs@).len() == a.addrs@.len());
    assert(text::views(b.addrs@).len() == b.addrs@.len());
    assert forall|k: int| 0 <= k < a.addrs@.len() implies offered(a, k) == offered(b, k) by {
        assert(text::views(a.addrs@)[k] == a.addrs@[k]@);
        assert(text::views(b.addrs@)[k] == b.addrs@[k]@);
    }
    assert(offered_by(a, a.addrs@.len() as int) =~= offered_by(b, b.addrs@.len() as int));
}

/// Law: links are preferred in this order, InfiniBand first; a link that only
/// this machine can use comes last.
pub proof fn law_links_are_preferred_in_order(c: LinkClass)
    ensures
        LinkClass::InfiniBand.standing() > LinkClass::Roce.standing(),
        LinkClass::Roce.standing() > LinkClass::Ethernet.standing(),
        LinkClass::Ethernet.standing() > LinkClass::Wireless.standing(),
        LinkClass::Wireless.standing() > LinkClass::Unverified.standing(),
        LinkClass::Unverified.standing() > LinkClass::Virtual.standing(),
        LinkClass::Virtual.standing() == LinkClass::Loopback.standing(),
        c.dialable() <==> c.standing() > LinkClass::Virtual.standing(),
        c.collective() <==> (c is InfiniBand || c is Roce || c is Ethernet || c is Unverified),
        c.slow() <==> (c is Ethernet || c is Wireless),
{
}

/// The beginnings of the names that software gives its interfaces.
pub open spec fn of_software(p: Seq<char>) -> bool {
    p == "docker"@ || p == "br-"@ || p == "veth"@ || p == "virbr"@ || p == "dummy"@ || p == "tun"@
        || p == "tap"@ || p == "bridge"@ || p == "utun"@ || p == "awdl"@ || p == "llw"@ || p
        == "ap1"@ || p == "vmenet"@ || p == "anpi"@ || p == "gif"@ || p == "stf"@
}

/// Law: a link is what its interface shows. The loopback is known by its type
/// or its name; a link of software by how its name begins; of the others, one
/// with a device for remote memory is a fast fabric, one with a radio is
/// wireless, and the rest are wires.
pub proof fn law_a_link_is_what_its_interface_shows(
    raw: RawIface,
    p: Seq<char>,
    rest: Seq<char>,
)
    ensures
        class_of(raw) is Loopback <==> raw.arp_type == 772 || raw.name@ == "lo"@,
        raw.arp_type != 772 && raw.name@ != "lo"@ && of_software(p) && raw.name@ == p + rest
            ==> class_of(raw) is Virtual,
        class_of(raw) is Virtual ==> exists|q: Seq<char>, r: Seq<char>|
            of_software(q) && raw.name@ == #[trigger] (q + r),
        !(class_of(raw) is Loopback) && !(class_of(raw) is Virtual) ==> {
            &&& class_of(raw) is Roce <==> raw.rdma
            &&& class_of(raw) is Wireless <==> !raw.rdma && raw.wireless
            &&& class_of(raw) is Ethernet <==> !raw.rdma && !raw.wireless
        },
{
    let n = raw.name@;
    text::law_beginnings_and_ends(n, p, rest);
    if class_of(raw) is Virtual {
        let q = choose|q: Seq<char>| of_software(q) && #[trigger] text::begins(n, q);
        text::law_beginnings_and_ends(n, "docker"@, rest);
        text::law_beginnings_and_ends(n, "br-"@, rest);
        text::law_beginnings_and_ends(n, "veth"@, rest);
        text::law_beginnings_and_ends(n, "virbr"@, rest);
        text::law_beginnings_and_ends(n, "dummy"@, rest);
        text::law_beginnings_and_ends(n, "tun"@, rest);
        text::law_beginnings_and_ends(n, "tap"@, rest);
        text::law_beginnings_and_ends(n, "bridge"@, rest);
        text::law_beginnings_and_ends(n, "utun"@, rest);
        text::law_beginnings_and_ends(n, "awdl"@, rest);
        text::law_beginnings_and_ends(n, "llw"@, rest);
        text::law_beginnings_and_ends(n, "ap1"@, rest);
        text::law_beginnings_and_ends(n, "vmenet"@, rest);
        text::law_beginnings_and_ends(n, "anpi"@, rest);
        text::law_beginnings_and_ends(n, "gif"@, rest);
        text::law_beginnings_and_ends(n, "stf"@, rest);
        assert(of_software(q) && text::begins(n, q));
        text::law_beginnings_and_ends(n, q, rest);
        assert(n == q + n.subrange(q.len() as int, n.len() as int));
    }
}

/// Law: an address keeps its host and the length of its prefix; one that is
/// written without has a length of zero.
pub proof fn law_an_address_keeps_its_prefix(host: Seq<char>, n: nat)
    requires
        !host.contains('/'),
        n <= 255,
    ensures
        host_of(host + "/"@ + text::dec(n)) == host,
        prefix_of(host + "/"@ + text::dec(n)) == n,
        host_of(host) == host,
        prefix_of(host) == 0,
{
    reveal_strlit("/");
    let s = host + "/"@ + text::dec(n);
    text::law_a_number_is_read_back(n);
    text::law_halves_are_around_the_first(host, '/');
    if text::halves(host, '/') is Some {
        let (x, y) = text::halves(host, '/').unwrap();
        assert((x + seq!['/'] + y)[x.len() as int] == '/');
    }
    text::law_halves_are_around_the_first(s, '/');
    assert(s[host.len() as int] == '/');
    assert(s.contains('/'));
    let (l, r) = text::halves(s, '/').unwrap();
    assert((l + seq!['/'] + r)[l.len() as int] == '/');
    if l.len() < host.len() {
        assert(s[l.len() as int] == host[l.len() as int]);
    } else if l.len() > host.len() {
        assert(l[host.len() as int] == s[host.len() as int]);
    }
    assert(l =~= host) by {
        assert forall|k: int| 0 <= k < host.len() implies l[k] == host[k] by {
            assert(s[k] == (l + seq!['/'] + r)[k]);
        }
    }
    assert(r =~= text::dec(n)) by {
        assert(r.len() == text::dec(n).len());
        assert forall|k: int| 0 <= k < r.len() implies r[k] == text::dec(n)[k] by {
            assert(s[host.len() + 1 + k] == (l + seq!['/'] + r)[host.len() + 1 + k]);
        }
    }
}

/// Law: every address of every interface that is up and can be dialled is a
/// candidate, with what its interface shows, and nothing else is.
pub proof fn law_every_address_that_is_up_is_a_candidate(raws: Seq<RawIface>, a: Address)
    ensures
        candidates(raws, raws.len() as int).contains(a) <==> exists|i: int, k: int|
            0 <= i < raws.len() && 0 <= k < raws[i].addrs@.len() && is_candidate(
                raws[i],
                #[trigger] raws[i].addrs@[k]@,
                a,
            ),
{
    lemma_candidates(raws, a, raws.len() as int);
}

/// `a` is what an interface that is up offers under one of its addresses.
pub open spec fn is_candidate(raw: RawIface, written: Seq<char>, a: Address) -> bool {
    &&& raw.carrier
    &&& !(class_of(raw) is Loopback) && !(class_of(raw) is Virtual)
    &&& a.iface == raw.name@
    &&& a.addr == host_of(written)
    &&& a.prefix_len == prefix_of(written)
    &&& a.class == class_of(raw)
    &&& a.speed_mbps == raw.speed_mbps
    &&& a.rdma == raw.rdma
}

proof fn lemma_candidates(raws: Seq<RawIface>, a: Address, n: int)
    requires
        0 <= n <= raws.len(),
    ensures
        candidates(raws, n).contains(a) <==> exists|i: int, k: int|
            0 <= i < n && 0 <= k < raws[i].addrs@.len() && is_candidate(
                raws[i],
                #[trigger] raws[i].addrs@[k]@,
                a,
            ),
    decreases n,
{
    if n > 0 {
        lemma_candidates(raws, a, n - 1);
        let raw = raws[n - 1];
        let front = candidates(raws, n - 1);
        let more = offered_by(raw, raw.addrs@.len() as int);
        let all = candidates(raws, n);
        if offers(raw) {
            assert(all == front + more);
            if front.contains(a) {
                let j = choose|j: int| 0 <= j < front.len() && front[j] == a;
                assert(all[j] == a);
            }
            if exists|k: int|
                0 <= k < raw.addrs@.len() && is_candidate(raw, #[trigger] raw.addrs@[k]@, a) {
                let k = choose|k: int|
                    0 <= k < raw.addrs@.len() && is_candidate(raw, #[trigger] raw.addrs@[k]@, a);
                assert(more[k] == a);
                assert(all[front.len() + k] == a);
            }
            if all.contains(a) {
                let j = choose|j: int| 0 <= j < all.len() && all[j] == a;
                if j < front.len() {
                    assert(front[j] == a);
                } else {
                    let k = j - front.len();
                    assert(more[k] == a);
                    assert(is_candidate(raws[n - 1], raws[n - 1].addrs@[k]@, a));
                }
            }
        }
    }
}

} // verus!
