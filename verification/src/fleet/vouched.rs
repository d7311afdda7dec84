//! Second-hand knowledge: what paired machines say of those they are paired
//! with.
//!
//! Everything in here is a claim by a voucher, never evidence this agent
//! gathered itself. The table is written from received digests and read by
//! the listing and the router, and by nothing that writes a digest, so a
//! claim is never passed on.
use crate::fabric::{LinkClass, NodeAddress};
use crate::fleet::{since, LocalFleet, NodeVitals, PeerReport, UNREACHABLE_AFTER};
use crate::node::{NodeId, NodeMap};
use vstd::prelude::*;

verus! {

/// How many machines one digest may speak of.
pub const MAX_VOUCHED: usize = 64;

/// What a machine says of one it is paired with.
#[derive(Debug)]
pub struct VouchedPeer<F> {
    pub node: NodeId,
    pub name: String,
    pub can_launch: bool,
    pub accelerator: String,
    pub os: String,
    pub addresses: Vec<NodeAddress>,
    pub link: LinkClass,
    /// The voucher can reach it now.
    pub reachable: bool,
    pub vitals: Option<NodeVitals<F>>,
    /// How old the vitals are, in seconds.
    pub vitals_age_s: Option<u64>,
}

/// One voucher's claim of a machine, and when it was recorded.
#[derive(Debug)]
pub struct Claim<F> {
    pub voucher: NodeId,
    pub peer: VouchedPeer<F>,
    pub at: u64,
}

/// The order of the table: by machine, then by voucher.
pub open spec fn earlier<F>(a: Claim<F>, b: Claim<F>) -> bool {
    a.peer.node.lt(b.peer.node) || (a.peer.node == b.peer.node && a.voucher.lt(b.voucher))
}

/// Claims in strictly ascending order.
pub open spec fn sorted<F>(s: Seq<Claim<F>>) -> bool {
    forall|i: int, j: int| 0 <= i < j < s.len() ==> earlier(#[trigger] s[i], #[trigger] s[j])
}

/// What a voucher claims of a machine.
pub open spec fn claim_at<F>(s: Seq<Claim<F>>, target: NodeId, voucher: NodeId) -> Option<Claim<F>>
    decreases s.len(),
{
    if s.len() == 0 {
        None
    } else if s.last().peer.node == target && s.last().voucher == voucher {
        Some(s.last())
    } else {
        claim_at(s.drop_last(), target, voucher)
    }
}

proof fn lemma_entry<F>(s: Seq<Claim<F>>, i: int)
    requires
        sorted(s),
        0 <= i < s.len(),
    ensures
        claim_at(s, s[i].peer.node, s[i].voucher) == Some(s[i]),
    decreases s.len(),
{
    if i < s.len() - 1 {
        assert(earlier(s[i], s[s.len() - 1]));
        assert(s.drop_last()[i] == s[i]);
        lemma_entry(s.drop_last(), i);
    }
}

proof fn lemma_found<F>(s: Seq<Claim<F>>, t: NodeId, v: NodeId) -> (i: int)
    requires
        claim_at(s, t, v) is Some,
    ensures
        0 <= i < s.len(),
        s[i].peer.node == t,
        s[i].voucher == v,
        claim_at(s, t, v) == Some(s[i]),
    decreases s.len(),
{
    if s.last().peer.node == t && s.last().voucher == v {
        s.len() - 1
    } else {
        let i = lemma_found(s.drop_last(), t, v);
        assert(s.drop_last()[i] == s[i]);
        i
    }
}

proof fn lemma_absent<F>(s: Seq<Claim<F>>, t: NodeId, v: NodeId)
    requires
        forall|i: int| 0 <= i < s.len() ==> !((#[trigger] s[i]).peer.node == t && s[i].voucher == v),
    ensures
        claim_at(s, t, v) is None,
    decreases s.len(),
{
    if s.len() > 0 {
        assert(!(s[s.len() - 1].peer.node == t && s[s.len() - 1].voucher == v));
        assert forall|i: int| 0 <= i < s.drop_last().len() implies !((
        #[trigger] s.drop_last()[i]).peer.node == t && s.drop_last()[i].voucher == v) by {
            assert(s.drop_last()[i] == s[i]);
        }
        lemma_absent(s.drop_last(), t, v);
    }
}

/// The claims among the first `n` that are kept.
pub open spec fn kept<F>(s: Seq<Claim<F>>, keep: spec_fn(Claim<F>) -> bool, n: int) -> Seq<Claim<F>>
    decreases n,
{
    if n <= 0 {
        Seq::empty()
    } else if keep(s[n - 1]) {
        kept(s, keep, n - 1).push(s[n - 1])
    } else {
        kept(s, keep, n - 1)
    }
}

/// Those of any voucher but one.
pub open spec fn not_by<F>(via: NodeId) -> spec_fn(Claim<F>) -> bool {
    |c: Claim<F>| c.voucher != via
}

/// Those recorded lately enough.
pub open spec fn heard_lately<F>(now: u64) -> spec_fn(Claim<F>) -> bool {
    |c: Claim<F>| since(c.at, now) < UNREACHABLE_AFTER
}

proof fn lemma_kept<F>(s: Seq<Claim<F>>, keep: spec_fn(Claim<F>) -> bool, n: int)
    requires
        sorted(s),
        0 <= n <= s.len(),
    ensures
        sorted(kept(s, keep, n)),
        forall|c: Claim<F>| #[trigger]
            kept(s, keep, n).contains(c) == (keep(c) && s.subrange(0, n).contains(c)),
    decreases n,
{
    if n > 0 {
        lemma_kept(s, keep, n - 1);
        let a = kept(s, keep, n - 1);
        let b = kept(s, keep, n);
        let short = s.subrange(0, n - 1);
        let long = s.subrange(0, n);
        assert(long =~= short.push(s[n - 1]));
        assert forall|c: Claim<F>| #[trigger] b.contains(c) == (keep(c) && long.contains(c)) by {
            lemma_push_contains(short, s[n - 1], c);
            lemma_push_contains(a, s[n - 1], c);
        }
        assert forall|i: int, j: int| 0 <= i < j < b.len() implies earlier(
            #[trigger] b[i],
            #[trigger] b[j],
        ) by {
            assert(b[i] == a[i]);
            if j < a.len() {
                assert(b[j] == a[j]);
            } else {
                assert(a.contains(a[i]));
                let k = choose|k: int| 0 <= k < short.len() && short[k] == a[i];
                assert(earlier(s[k], s[n - 1]));
            }
        }
    } else {
        assert(s.subrange(0, 0) =~= Seq::empty());
    }
}

proof fn lemma_push_contains<F>(s: Seq<Claim<F>>, x: Claim<F>, c: Claim<F>)
    ensures
        s.push(x).contains(c) == (s.contains(c) || c == x),
{
    let t = s.push(x);
    if s.contains(c) {
        let i = choose|i: int| 0 <= i < s.len() && s[i] == c;
        assert(t[i] == c);
    }
    if c == x {
        assert(t[s.len() as int] == c);
    }
    if t.contains(c) {
        let i = choose|i: int| 0 <= i < t.len() && t[i] == c;
        assert(i < s.len() ==> s[i] == c);
    }
}

/// Keeping some claims changes nothing of what those say.
pub proof fn lemma_kept_at<F>(s: Seq<Claim<F>>, keep: spec_fn(Claim<F>) -> bool)
    requires
        sorted(s),
    ensures
        sorted(kept(s, keep, s.len() as int)),
        forall|t: NodeId, v: NodeId| #[trigger]
            claim_at(kept(s, keep, s.len() as int), t, v) == (match claim_at(s, t, v) {
                Some(c) => if keep(c) {
                    Some(c)
                } else {
                    None
                },
                None => None,
            }),
{
    let n = s.len() as int;
    let k = kept(s, keep, n);
    lemma_kept(s, keep, n);
    assert(s.subrange(0, n) =~= s);
    assert forall|t: NodeId, v: NodeId| #[trigger]
        claim_at(k, t, v) == (match claim_at(s, t, v) {
            Some(c) => if keep(c) {
                Some(c)
            } else {
                None
            },
            None => None,
        }) by {
        if claim_at(k, t, v) is Some {
            let i = lemma_found(k, t, v);
            assert(k.contains(k[i]));
            let j = choose|j: int| 0 <= j < n && s[j] == k[i];
            lemma_entry(s, j);
        } else if claim_at(s, t, v) is Some {
            let j = lemma_found(s, t, v);
            if keep(s[j]) {
                assert(s.contains(s[j]));
                assert(k.contains(s[j]));
                let i = choose|i: int| 0 <= i < k.len() && k[i] == s[j];
                lemma_entry(k, i);
            }
        }
    }
}

/// What the first `n` entries of a digest say of a machine: the last of them
/// that names it. A machine is not told of itself, and does not vouch for
/// itself.
pub open spec fn said<F>(
    digest: Seq<VouchedPeer<F>>,
    own: NodeId,
    via: NodeId,
    now: u64,
    target: NodeId,
    n: int,
) -> Option<Claim<F>>
    decreases n,
{
    if n <= 0 {
        None
    } else if digest[n - 1].node == target && target != own && target != via {
        Some(Claim { voucher: via, peer: digest[n - 1], at: now })
    } else {
        said(digest, own, via, now, target, n - 1)
    }
}

/// The best route to a machine among the first `n` claims: the rank of this
/// machine's own link to the voucher, and the voucher. Only a voucher that is
/// heard, and that claims to reach the machine, is a route.
pub open spec fn best_route<F>(
    s: Seq<Claim<F>>,
    reports: NodeMap<(PeerReport<F>, u64)>,
    target: NodeId,
    n: int,
) -> Option<(u8, NodeId)>
    decreases n,
{
    if n <= 0 {
        None
    } else {
        let best = best_route(s, reports, target, n - 1);
        let c = s[n - 1];
        if eligible(c, reports, target) {
            let rank = leg(c, reports);
            if best is None || rank > best.unwrap().0 {
                Some((rank, c.voucher))
            } else {
                best
            }
        } else {
            best
        }
    }
}

/// A claim that makes its voucher a route to a machine.
pub open spec fn eligible<F>(
    c: Claim<F>,
    reports: NodeMap<(PeerReport<F>, u64)>,
    target: NodeId,
) -> bool {
    c.peer.node == target && c.peer.reachable && reports.at(c.voucher) is Some
}

/// The rank of this machine's own link to a claim's voucher.
pub open spec fn leg<F>(c: Claim<F>, reports: NodeMap<(PeerReport<F>, u64)>) -> u8 {
    reports.at(c.voucher).unwrap().0.link.standing()
}

/// The first of the first `n` claims that is of a machine.
pub open spec fn first_claim<F>(s: Seq<Claim<F>>, target: NodeId, n: int) -> Option<Claim<F>>
    decreases n,
{
    if n <= 0 {
        None
    } else {
        match first_claim(s, target, n - 1) {
            Some(c) => Some(c),
            None => if s[n - 1].peer.node == target {
                Some(s[n - 1])
            } else {
                None
            },
        }
    }
}

proof fn lemma_first_claim<F>(s: Seq<Claim<F>>, target: NodeId, n: int, m: int)
    requires
        0 <= n <= m <= s.len(),
        first_claim(s, target, n) is Some,
    ensures
        first_claim(s, target, m) == first_claim(s, target, n),
    decreases m,
{
    if n < m {
        lemma_first_claim(s, target, n, m - 1);
    }
}

/// Second-hand knowledge, by machine and voucher.
#[derive(Debug)]
pub struct VouchTable<F> {
    claims: Vec<Claim<F>>,
}

impl<F> VouchTable<F> {
    #[verifier::type_invariant]
    spec fn ordered(self) -> bool {
        sorted(self.claims@)
    }

    /// The claims, by machine and then by voucher.
    pub closed spec fn listing(self) -> Seq<Claim<F>> {
        self.claims@
    }

    /// What a voucher claims of a machine.
    pub open spec fn at(self, target: NodeId, voucher: NodeId) -> Option<Claim<F>> {
        claim_at(self.listing(), target, voucher)
    }

    /// A table of nothing.
    pub fn new() -> (r: Self)
        ensures
            r.listing() == Seq::<Claim<F>>::empty(),
    {
        VouchTable { claims: Vec::new() }
    }

    /// How many claims there are.
    pub fn len(&self) -> (n: usize)
        ensures
            n == self.listing().len(),
            sorted(self.listing()),
    {
        proof {
            use_type_invariant(self);
        }
        self.claims.len()
    }

    /// The claim at a place.
    pub fn claim(&self, i: usize) -> (c: &Claim<F>)
        requires
            i < self.listing().len(),
        ensures
            *c == self.listing()[i as int],
    {
        &self.claims[i]
    }

    /// Drops the claims of a voucher.
    pub fn forget(&mut self, via: NodeId)
        ensures
            final(self).listing() == kept(
                old(self).listing(),
                not_by::<F>(via),
                old(self).listing().len() as int,
            ),
    {
        proof {
            use_type_invariant(&*self);
        }
        let ghost all = self.claims@;
        let mut rest: Vec<Claim<F>> = Vec::new();
        std::mem::swap(&mut rest, &mut self.claims);
        let mut out: Vec<Claim<F>> = Vec::new();
        let ghost mut n: int = 0;
        assert(all.subrange(0, all.len() as int) =~= all);
        while rest.len() > 0
            invariant
                0 <= n <= all.len(),
                rest@ == all.subrange(n, all.len() as int),
                out@ == kept(all, not_by::<F>(via), n),
            decreases rest.len(),
        {
            let c = rest.remove(0);
            assert(c == all[n]);
            assert(rest@ =~= all.subrange(n + 1, all.len() as int));
            if c.voucher != via {
                out.push(c);
            }
            proof {
                n = n + 1;
            }
        }
        assert(n == all.len());
        proof {
            lemma_kept(all, not_by::<F>(via), n);
        }
        self.claims = out;
    }

    /// Drops the claims that nothing has confirmed for too long.
    pub fn prune(&mut self, now: u64)
        ensures
            final(self).listing() == kept(
                old(self).listing(),
                heard_lately::<F>(now),
                old(self).listing().len() as int,
            ),
    {
        proof {
            use_type_invariant(&*self);
        }
        let ghost all = self.claims@;
        let mut rest: Vec<Claim<F>> = Vec::new();
        std::mem::swap(&mut rest, &mut self.claims);
        let mut out: Vec<Claim<F>> = Vec::new();
        let ghost mut n: int = 0;
        assert(all.subrange(0, all.len() as int) =~= all);
        while rest.len() > 0
            invariant
                0 <= n <= all.len(),
                rest@ == all.subrange(n, all.len() as int),
                out@ == kept(all, heard_lately::<F>(now), n),
            decreases rest.len(),
        {
            let c = rest.remove(0);
            assert(c == all[n]);
            assert(rest@ =~= all.subrange(n + 1, all.len() as int));
            if now.saturating_sub(c.at) < UNREACHABLE_AFTER {
                out.push(c);
            }
            proof {
                n = n + 1;
            }
        }
        assert(n == all.len());
        proof {
            lemma_kept(all, heard_lately::<F>(now), n);
        }
        self.claims = out;
    }

    fn place(&self, t: NodeId, v: NodeId) -> (i: usize)
        ensures
            i <= self.claims@.len(),
            forall|k: int|
                0 <= k < i ==> ((#[trigger] self.claims@[k]).peer.node.lt(t) || (
                self.claims@[k].peer.node == t && self.claims@[k].voucher.lt(v))),
            forall|k: int|
                i <= k < self.claims@.len() ==> !((#[trigger] self.claims@[k]).peer.node.lt(t) || (
                self.claims@[k].peer.node == t && self.claims@[k].voucher.lt(v))),
    {
        proof {
            use_type_invariant(self);
        }
        let mut i: usize = 0;
        while i < self.claims.len() && (self.claims[i].peer.node.before(&t) || (
        self.claims[i].peer.node == t && self.claims[i].voucher.before(&v)))
            invariant
                sorted(self.claims@),
                i <= self.claims@.len(),
                forall|k: int|
                    0 <= k < i ==> ((#[trigger] self.claims@[k]).peer.node.lt(t) || (
                    self.claims@[k].peer.node == t && self.claims@[k].voucher.lt(v))),
            decreases self.claims@.len() - i,
        {
            i += 1;
        }
        proof {
            if i < self.claims@.len() {
                assert forall|k: int| i <= k < self.claims@.len() implies !((
                #[trigger] self.claims@[k]).peer.node.lt(t) || (self.claims@[k].peer.node == t
                    && self.claims@[k].voucher.lt(v))) by {
                    if k > i {
                        assert(earlier(self.claims@[i as int], self.claims@[k]));
                    }
                }
            }
        }
        i
    }

    /// Puts a claim in, in place of what its voucher claimed of the machine.
    fn put(&mut self, c: Claim<F>)
        ensures
            forall|t: NodeId, v: NodeId| #[trigger]
                final(self).at(t, v) == (if t == c.peer.node && v == c.voucher {
                    Some(c)
                } else {
                    old(self).at(t, v)
                }),
    {
        proof {
            use_type_invariant(&*self);
        }
        let ghost before = self.claims@;
        let i = self.place(c.peer.node, c.voucher);
        let mut claims: Vec<Claim<F>> = Vec::new();
        std::mem::swap(&mut claims, &mut self.claims);
        if i < claims.len() && claims[i].peer.node == c.peer.node && claims[i].voucher == c.voucher {
            let _gone = claims.remove(i);
            claims.insert(i, c);
            proof {
                assert(claims@ =~= before.update(i as int, c));
                lemma_updated(before, claims@, i as int, c);
            }
        } else {
            claims.insert(i, c);
            proof {
                lemma_inserted(before, claims@, i as int, c);
            }
        }
        self.claims = claims;
    }

    /// Records a voucher's digest in place of all it claimed before. A digest
    /// that is too long changes nothing.
    pub fn record(&mut self, own: NodeId, via: NodeId, digest: Vec<VouchedPeer<F>>, now: u64)
        ensures
            digest@.len() > 64 ==> final(self).listing() == old(self).listing(),
            digest@.len() <= 64 ==> forall|t: NodeId, v: NodeId| #[trigger]
                final(self).at(t, v) == (if v == via {
                    said(digest@, own, via, now, t, digest@.len() as int)
                } else {
                    old(self).at(t, v)
                }),
    {
        proof {
            use_type_invariant(&*self);
        }
        if digest.len() > MAX_VOUCHED {
            return;
        }
        let ghost first = self.listing();
        self.forget(via);
        proof {
            lemma_kept_at(first, not_by::<F>(via));
            assert forall|t: NodeId, v: NodeId| #[trigger]
                self.at(t, v) == (if v == via {
                    None
                } else {
                    claim_at(first, t, v)
                }) by {
                if claim_at(first, t, v) is Some {
                    let _j = lemma_found(first, t, v);
                }
            }
        }
        let ghost all = digest@;
        let mut rest = digest;
        let ghost mut n: int = 0;
        assert(all.subrange(0, all.len() as int) =~= all);
        while rest.len() > 0
            invariant
                0 <= n <= all.len(),
                rest@ == all.subrange(n, all.len() as int),
                forall|t: NodeId, v: NodeId| #[trigger]
                    self.at(t, v) == (if v == via {
                        said(all, own, via, now, t, n)
                    } else {
                        claim_at(first, t, v)
                    }),
            decreases rest.len(),
        {
            let peer = rest.remove(0);
            assert(peer == all[n]);
            assert(rest@ =~= all.subrange(n + 1, all.len() as int));
            if peer.node != own && peer.node != via {
                self.put(Claim { voucher: via, peer, at: now });
            }
            proof {
                n = n + 1;
            }
        }
        assert(n == all.len());
    }

    /// The voucher that a request to a machine would go through.
    pub fn pick(&self, reports: &NodeMap<(PeerReport<F>, u64)>, target: NodeId) -> (r: Option<
        NodeId,
    >)
        ensures
            r == (match best_route(
                self.listing(),
                *reports,
                target,
                self.listing().len() as int,
            ) {
                Some((_, v)) => Some(v),
                None => None,
            }),
    {
        let mut best: Option<(u8, NodeId)> = None;
        let mut i: usize = 0;
        while i < self.claims.len()
            invariant
                i <= self.claims@.len(),
                best == best_route(self.claims@, *reports, target, i as int),
            decreases self.claims@.len() - i,
        {
            let c = &self.claims[i];
            if c.peer.node == target && c.peer.reachable {
                match reports.get(c.voucher) {
                    Some(report) => {
                        let rank = report.0.link.rank();
                        let better = match best {
                            Some((r, _)) => rank > r,
                            None => true,
                        };
                        if better {
                            best = Some((rank, c.voucher));
                        }
                    },
                    None => {},
                }
            }
            i += 1;
        }
        match best {
            Some((_, v)) => Some(v),
            None => None,
        }
    }

    /// The claim that describes a machine.
    pub open spec fn describing(
        self,
        reports: NodeMap<(PeerReport<F>, u64)>,
        target: NodeId,
    ) -> Option<Claim<F>> {
        match best_route(self.listing(), reports, target, self.listing().len() as int) {
            Some((_, v)) => self.at(target, v),
            None => first_claim(self.listing(), target, self.listing().len() as int),
        }
    }

    /// The claim that describes a machine: that of the voucher a request
    /// would go through, so that what is shown is what stands behind the
    /// route; without a route, that of the smallest voucher.
    pub fn describe(&self, reports: &NodeMap<(PeerReport<F>, u64)>, target: NodeId) -> (r: Option<
        &Claim<F>,
    >)
        ensures
            match r {
                Some(c) => self.describing(*reports, target) == Some(*c),
                None => self.describing(*reports, target) is None,
            },
    {
        proof {
            use_type_invariant(self);
        }
        match self.pick(reports, target) {
            Some(v) => {
                let mut i: usize = 0;
                while i < self.claims.len()
                    invariant
                        i <= self.claims@.len(),
                        sorted(self.claims@),
                        self.describing(*reports, target) == claim_at(self.claims@, target, v),
                        forall|k: int|
                            0 <= k < i ==> !((#[trigger] self.claims@[k]).peer.node == target
                                && self.claims@[k].voucher == v),
                    decreases self.claims@.len() - i,
                {
                    if self.claims[i].peer.node == target && self.claims[i].voucher == v {
                        proof {
                            lemma_entry(self.claims@, i as int);
                        }
                        return Some(&self.claims[i]);
                    }
                    i += 1;
                }
                proof {
                    lemma_absent(self.claims@, target, v);
                }
                None
            },
            None => {
                let mut i: usize = 0;
                while i < self.claims.len()
                    invariant
                        i <= self.claims@.len(),
                        self.describing(*reports, target) == first_claim(
                            self.claims@,
                            target,
                            self.claims@.len() as int,
                        ),
                        first_claim(self.claims@, target, i as int) is None,
                    decreases self.claims@.len() - i,
                {
                    if self.claims[i].peer.node == target {
                        proof {
                            lemma_first_claim(
                                self.claims@,
                                target,
                                i + 1,
                                self.claims@.len() as int,
                            );
                        }
                        return Some(&self.claims[i]);
                    }
                    i += 1;
                }
                None
            },
        }
    }
}

proof fn lemma_agree<F>(s: Seq<Claim<F>>, t: Seq<Claim<F>>, c: Claim<F>)
    requires
        sorted(s),
        sorted(t),
        forall|i: int|
            0 <= i < s.len() && !(s[i].peer.node == c.peer.node && s[i].voucher == c.voucher)
                ==> exists|j: int| 0 <= j < t.len() && t[j] == #[trigger] s[i],
        forall|i: int|
            0 <= i < t.len() && !(t[i].peer.node == c.peer.node && t[i].voucher == c.voucher)
                ==> exists|j: int| 0 <= j < s.len() && s[j] == #[trigger] t[i],
    ensures
        forall|x: NodeId, v: NodeId|
            !(x == c.peer.node && v == c.voucher) ==> #[trigger] claim_at(s, x, v) == claim_at(
                t,
                x,
                v,
            ),
{
    assert forall|x: NodeId, v: NodeId|
        !(x == c.peer.node && v == c.voucher) implies #[trigger] claim_at(s, x, v) == claim_at(
        t,
        x,
        v,
    ) by {
        if claim_at(s, x, v) is Some {
            let i = lemma_found(s, x, v);
            let j = choose|j: int| 0 <= j < t.len() && t[j] == s[i];
            lemma_entry(t, j);
        } else if claim_at(t, x, v) is Some {
            let i = lemma_found(t, x, v);
            let j = choose|j: int| 0 <= j < s.len() && s[j] == t[i];
            lemma_entry(s, j);
        }
    }
}

proof fn lemma_updated<F>(s: Seq<Claim<F>>, t: Seq<Claim<F>>, i: int, c: Claim<F>)
    requires
        sorted(s),
        0 <= i < s.len(),
        s[i].peer.node == c.peer.node,
        s[i].voucher == c.voucher,
        t == s.update(i, c),
    ensures
        sorted(t),
        forall|x: NodeId, v: NodeId| #[trigger]
            claim_at(t, x, v) == (if x == c.peer.node && v == c.voucher {
                Some(c)
            } else {
                claim_at(s, x, v)
            }),
{
    lemma_entry(t, i);
    assert forall|k: int|
        0 <= k < s.len() && !(s[k].peer.node == c.peer.node && s[k].voucher
            == c.voucher) implies exists|j: int| 0 <= j < t.len() && t[j] == #[trigger] s[k] by {
        assert(t[k] == s[k]);
    }
    assert forall|k: int|
        0 <= k < t.len() && !(t[k].peer.node == c.peer.node && t[k].voucher
            == c.voucher) implies exists|j: int| 0 <= j < s.len() && s[j] == #[trigger] t[k] by {
        assert(s[k] == t[k]);
    }
    lemma_agree(t, s, c);
}

proof fn lemma_inserted<F>(s: Seq<Claim<F>>, t: Seq<Claim<F>>, i: int, c: Claim<F>)
    requires
        sorted(s),
        0 <= i <= s.len(),
        forall|k: int| 0 <= k < i ==> earlier(#[trigger] s[k], c),
        forall|k: int| i <= k < s.len() ==> !earlier(#[trigger] s[k], c),
        i < s.len() ==> !(s[i].peer.node == c.peer.node && s[i].voucher == c.voucher),
        t == s.insert(i, c),
    ensures
        sorted(t),
        forall|x: NodeId, v: NodeId| #[trigger]
            claim_at(t, x, v) == (if x == c.peer.node && v == c.voucher {
                Some(c)
            } else {
                claim_at(s, x, v)
            }),
{
    assert forall|k: int| 0 <= k < s.len() implies !((#[trigger] s[k]).peer.node == c.peer.node
        && s[k].voucher == c.voucher) by {
        if k > i {
            assert(earlier(s[i], s[k]));
        }
    }
    assert forall|a: int, b: int| 0 <= a < b < t.len() implies earlier(
        #[trigger] t[a],
        #[trigger] t[b],
    ) by {
        let x = if a < i { a } else { a - 1 };
        let y = if b < i { b } else { b - 1 };
        if a != i {
            assert(t[a] == s[x]);
        }
        if b != i {
            assert(t[b] == s[y]);
        }
    }
    lemma_entry(t, i);
    assert forall|k: int|
        0 <= k < s.len() && !(s[k].peer.node == c.peer.node && s[k].voucher
            == c.voucher) implies exists|j: int| 0 <= j < t.len() && t[j] == #[trigger] s[k] by {
        let j = if k < i { k } else { k + 1 };
        assert(t[j] == s[k]);
    }
    assert forall|k: int|
        0 <= k < t.len() && !(t[k].peer.node == c.peer.node && t[k].voucher
            == c.voucher) implies exists|j: int| 0 <= j < s.len() && s[j] == #[trigger] t[k] by {
        let j = if k < i { k } else { k - 1 };
        assert(s[j] == t[k]);
    }
    lemma_agree(t, s, c);
}

impl<F: Copy> LocalFleet<F> {
    /// Record a voucher's digest in place of its previous claims.
    ///
    /// Replacement, never a merge: a digest is the voucher's complete current
    /// statement, so a machine it stopped vouching for disappears. One that
    /// is too long is refused whole, which keeps the last well-formed
    /// statement. Entries naming this machine or the speaker are dropped.
    pub fn record_vouches(&mut self, via: NodeId, digest: Vec<VouchedPeer<F>>, now: u64)
        ensures
            *final(self) == (LocalFleet { vouches: final(self).vouches, ..*old(self) }),
            digest@.len() > 64 ==> final(self).vouches.listing() == old(
                self,
            ).vouches.listing(),
            digest@.len() <= 64 ==> forall|t: NodeId, v: NodeId| #[trigger]
                final(self).vouches.at(t, v) == (if v == via {
                    said(digest@, old(self).id, via, now, t, digest@.len() as int)
                } else {
                    old(self).vouches.at(t, v)
                }),
    {
        self.vouches.record(self.id, via, digest, now);
    }

    /// Drop every claim a voucher has made, because it is no longer trusted
    /// to say anything.
    pub fn clear_vouches(&mut self, via: NodeId)
        ensures
            *final(self) == (LocalFleet { vouches: final(self).vouches, ..*old(self) }),
            final(self).vouches.listing() == kept(
                old(self).vouches.listing(),
                not_by::<F>(via),
                old(self).vouches.listing().len() as int,
            ),
    {
        self.vouches.forget(via);
    }

    /// The voucher that a request to a machine rides, when there is one.
    pub open spec fn route_of(&self, target: NodeId) -> Option<NodeId> {
        match best_route(
            self.vouches.listing(),
            self.reports,
            target,
            self.vouches.listing().len() as int,
        ) {
            Some((_, v)) => Some(v),
            None => None,
        }
    }

    /// The voucher that a request to a machine would ride, when one exists.
    ///
    /// The one routing rule: the listing and the router both ask here. Of the
    /// vouchers that are heard and claim the machine reachable, the one whose
    /// link from this machine ranks highest; the smallest of equals.
    pub fn choose_voucher(&self, target: NodeId) -> (r: Option<NodeId>)
        ensures
            r == self.route_of(target),
    {
        self.vouches.pick(&self.reports, target)
    }

    /// The claim that describes a machine.
    pub open spec fn described(&self, target: NodeId) -> Option<Claim<F>> {
        self.vouches.describing(self.reports, target)
    }

    /// The claim that describes a machine, and with it the voucher.
    pub fn vouch_of(&self, target: NodeId) -> (r: Option<&Claim<F>>)
        ensures
            match r {
                Some(c) => self.described(target) == Some(*c),
                None => self.described(target) is None,
            },
    {
        self.vouches.describe(&self.reports, target)
    }

    /// The machines among the first `n` claims, each once.
    pub open spec fn targets(s: Seq<Claim<F>>, n: int) -> Seq<NodeId>
        decreases n,
    {
        if n <= 0 {
            Seq::empty()
        } else if n >= 2 && s[n - 2].peer.node == s[n - 1].peer.node {
            Self::targets(s, n - 1)
        } else {
            Self::targets(s, n - 1).push(s[n - 1].peer.node)
        }
    }

    /// Every machine someone vouches for, in ascending order.
    pub fn vouched_targets(&self) -> (r: Vec<NodeId>)
        ensures
            r@ == Self::targets(
                self.vouches.listing(),
                self.vouches.listing().len() as int,
            ),
    {
        let n = self.vouches.len();
        let mut out: Vec<NodeId> = Vec::new();
        let mut i: usize = 0;
        while i < n
            invariant
                i <= n,
                n == self.vouches.listing().len(),
                out@ == Self::targets(self.vouches.listing(), i as int),
            decreases n - i,
        {
            let node = self.vouches.claim(i).peer.node;
            if i == 0 || self.vouches.claim(i - 1).peer.node != node {
                out.push(node);
            }
            i += 1;
        }
        out
    }
}

// ---------------------------------------------------------------------------
// Laws
// ---------------------------------------------------------------------------

proof fn lemma_best<F>(
    s: Seq<Claim<F>>,
    reports: NodeMap<(PeerReport<F>, u64)>,
    target: NodeId,
    n: int,
)
    requires
        0 <= n <= s.len(),
    ensures
        best_route(s, reports, target, n) matches Some((rank, v)) ==> exists|i: int|
            0 <= i < n && eligible(#[trigger] s[i], reports, target) && s[i].voucher == v && leg(
                s[i],
                reports,
            ) == rank && forall|j: int|
                0 <= j < i && eligible(#[trigger] s[j], reports, target) ==> leg(s[j], reports)
                    < rank,
        best_route(s, reports, target, n) matches Some((rank, v)) ==> forall|j: int|
            0 <= j < n && eligible(#[trigger] s[j], reports, target) ==> leg(s[j], reports)
                <= rank,
        best_route(s, reports, target, n) is None ==> forall|j: int|
            0 <= j < n ==> !eligible(#[trigger] s[j], reports, target),
    decreases n,
{
    if n > 0 {
        lemma_best(s, reports, target, n - 1);
        if eligible(s[n - 1], reports, target) {
            let best = best_route(s, reports, target, n - 1);
            if best is Some && leg(s[n - 1], reports) <= best.unwrap().0 {
                let i = choose|i: int|
                    0 <= i < n - 1 && eligible(#[trigger] s[i], reports, target) && s[i].voucher
                        == best.unwrap().1 && leg(s[i], reports) == best.unwrap().0 && forall|j: int|
                        0 <= j < i && eligible(#[trigger] s[j], reports, target) ==> leg(
                            s[j],
                            reports,
                        ) < best.unwrap().0;
                assert(eligible(s[i], reports, target));
            } else {
                assert(eligible(s[n - 1], reports, target));
            }
        }
    }
}

/// Law: the route is the best there is, and there is one whenever there can
/// be. It goes through a voucher that is heard and claims to reach the
/// machine; no other such voucher is on a link that ranks higher, and of
/// those on a link that ranks as high this one is numerically the smallest.
pub proof fn law_the_route_is_the_best_leg<F: Copy>(
    f: LocalFleet<F>,
    target: NodeId,
    c: Claim<F>,
)
    requires
        sorted(f.vouches.listing()),
        f.vouches.listing().contains(c),
        eligible(c, f.reports, target),
    ensures
        f.route_of(target) matches Some(v) && f.vouches.at(target, v) matches Some(chosen)
            && eligible(chosen, f.reports, target) && chosen.voucher == v && leg(chosen, f.reports)
            >= leg(c, f.reports) && (leg(chosen, f.reports) == leg(c, f.reports) ==> v == c.voucher
            || v.lt(c.voucher)),
{
    let s = f.vouches.listing();
    let n = s.len() as int;
    lemma_best(s, f.reports, target, n);
    let k = choose|k: int| 0 <= k < s.len() && s[k] == c;
    assert(eligible(s[k], f.reports, target));
    let (rank, v) = best_route(s, f.reports, target, n).unwrap();
    let i = choose|i: int|
        0 <= i < n && eligible(#[trigger] s[i], f.reports, target) && s[i].voucher == v && leg(
            s[i],
            f.reports,
        ) == rank && forall|j: int|
            0 <= j < i && eligible(#[trigger] s[j], f.reports, target) ==> leg(s[j], f.reports)
                < rank;
    lemma_entry(s, i);
    if i < k {
        assert(earlier(s[i], s[k]));
    }
}

/// Law: no route leads through a voucher that is not heard, or that does not
/// itself claim to reach the machine.
pub proof fn law_a_silent_voucher_is_no_route<F: Copy>(f: LocalFleet<F>, target: NodeId)
    requires
        sorted(f.vouches.listing()),
    ensures
        f.route_of(target) matches Some(v) ==> f.reports.at(v) is Some && (f.vouches.at(target, v)
            matches Some(c) && c.peer.reachable && c.peer.node == target && c.voucher == v),
{
    let s = f.vouches.listing();
    let n = s.len() as int;
    lemma_best(s, f.reports, target, n);
    if best_route(s, f.reports, target, n) is Some {
        let (rank, v) = best_route(s, f.reports, target, n).unwrap();
        let i = choose|i: int|
            0 <= i < n && eligible(#[trigger] s[i], f.reports, target) && s[i].voucher == v && leg(
                s[i],
                f.reports,
            ) == rank && forall|j: int|
                0 <= j < i && eligible(#[trigger] s[j], f.reports, target) ==> leg(s[j], f.reports)
                    < rank;
        lemma_entry(s, i);
    }
}

/// Law: a digest replaces what its speaker said before and touches nobody
/// else's word. After it, the speaker claims a machine exactly if the digest
/// names that machine and it is neither the receiver nor the speaker.
pub proof fn law_a_digest_replaces_the_last_one<F>(
    digest: Seq<VouchedPeer<F>>,
    own: NodeId,
    via: NodeId,
    now: u64,
    target: NodeId,
)
    ensures
        (said(digest, own, via, now, target, digest.len() as int) is Some) == (target != own
            && target != via && exists|i: int|
            0 <= i < digest.len() && (#[trigger] digest[i]).node == target),
        said(digest, own, via, now, target, digest.len() as int) matches Some(c) ==> c.voucher
            == via && c.peer.node == target && digest.contains(c.peer) && c.at == now,
{
    lemma_said(digest, own, via, now, target, digest.len() as int);
}

proof fn lemma_said<F>(
    digest: Seq<VouchedPeer<F>>,
    own: NodeId,
    via: NodeId,
    now: u64,
    target: NodeId,
    n: int,
)
    requires
        0 <= n <= digest.len(),
    ensures
        (said(digest, own, via, now, target, n) is Some) == (target != own && target != via
            && exists|i: int| 0 <= i < n && (#[trigger] digest[i]).node == target),
        said(digest, own, via, now, target, n) matches Some(c) ==> c.voucher == via && c.peer.node
            == target && digest.contains(c.peer) && c.at == now,
    decreases n,
{
    if n > 0 {
        lemma_said(digest, own, via, now, target, n - 1);
        if digest[n - 1].node == target {
            assert(digest[n - 1].node == target);
        }
    }
}

/// Law: trust withdrawn from a voucher withdraws every claim it made, and no
/// other.
pub proof fn law_withdrawn_trust_withdraws_claims<F>(
    s: Seq<Claim<F>>,
    via: NodeId,
    target: NodeId,
    voucher: NodeId,
)
    requires
        sorted(s),
    ensures
        claim_at(kept(s, not_by::<F>(via), s.len() as int), target, voucher) == (if voucher == via {
            None
        } else {
            claim_at(s, target, voucher)
        }),
{
    lemma_kept_at(s, not_by::<F>(via));
    if claim_at(s, target, voucher) is Some {
        let _i = lemma_found(s, target, voucher);
    }
}

/// Law: the route to a machine leads through the best-linked of those that are
/// heard and say they reach it; of equals, through the smallest.
pub proof fn law_the_best_linked_voucher_is_taken<F: Copy>(
    f: LocalFleet<F>,
    target: NodeId,
    c: Claim<F>,
)
    requires
        sorted(f.vouches.listing()),
        f.vouches.listing().contains(c),
        c.peer.node == target,
        c.peer.reachable,
        f.reports.at(c.voucher) is Some,
    ensures
        f.route_of(target) is Some,
        ({
            let v = f.route_of(target).unwrap();
            &&& f.reports.at(v) is Some
            &&& f.reports.at(v).unwrap().0.link.standing() >= f.reports.at(
                c.voucher,
            ).unwrap().0.link.standing()
            &&& f.reports.at(v).unwrap().0.link.standing() == f.reports.at(
                c.voucher,
            ).unwrap().0.link.standing() ==> v == c.voucher || v.hi < c.voucher.hi || (v.hi
                == c.voucher.hi && v.lo < c.voucher.lo)
            &&& exists|i: int|
                0 <= i < f.vouches.listing().len() && (
                #[trigger] f.vouches.listing()[i]).peer.node == target
                    && f.vouches.listing()[i].voucher == v && f.vouches.listing()[i].peer.reachable
        }),
{
    law_the_route_is_the_best_leg(f, target, c);
    let v = f.route_of(target).unwrap();
    let i = lemma_found(f.vouches.listing(), target, v);
    assert(f.vouches.listing()[i].voucher == v);
}

/// Law: a machine is described exactly where somebody speaks of it: by the
/// voucher that a request to it would go through, and where there is none by
/// the smallest that speaks of it.
pub proof fn law_a_machine_is_described_by_its_route<F: Copy>(f: LocalFleet<F>, target: NodeId)
    requires
        sorted(f.vouches.listing()),
    ensures
        f.described(target) is Some <==> exists|i: int|
            0 <= i < f.vouches.listing().len() && (#[trigger] f.vouches.listing()[i]).peer.node
                == target,
        f.described(target) matches Some(c) ==> c.peer.node == target
            && f.vouches.listing().contains(c) && (f.route_of(target) matches Some(v) ==> c.voucher
            == v) && (f.route_of(target) is None ==> forall|i: int|
            0 <= i < f.vouches.listing().len() && (#[trigger] f.vouches.listing()[i]).peer.node
                == target ==> c == f.vouches.listing()[i] || c.voucher.lt(
                f.vouches.listing()[i].voucher,
            )),
{
    let s = f.vouches.listing();
    let n = s.len() as int;
    law_a_silent_voucher_is_no_route(f, target);
    lemma_smallest_claim(s, target, n);
    if f.route_of(target) is Some {
        let v = f.route_of(target).unwrap();
        let i = lemma_found(s, target, v);
        assert(s[i].peer.node == target);
        assert(s.contains(s[i]));
    }
}

proof fn lemma_smallest_claim<F>(s: Seq<Claim<F>>, target: NodeId, n: int)
    requires
        sorted(s),
        0 <= n <= s.len(),
    ensures
        match first_claim(s, target, n) {
            Some(c) => c.peer.node == target && s.contains(c) && forall|i: int|
                0 <= i < n && (#[trigger] s[i]).peer.node == target ==> c == s[i] || c.voucher.lt(
                    s[i].voucher,
                ),
            None => forall|i: int| 0 <= i < n ==> (#[trigger] s[i]).peer.node != target,
        },
    decreases n,
{
    if n > 0 {
        lemma_smallest_claim(s, target, n - 1);
        if first_claim(s, target, n - 1) is Some {
            let c = first_claim(s, target, n - 1).unwrap();
            if s[n - 1].peer.node == target {
                lemma_first_place(s, target, n - 1);
                let k = choose|k: int| 0 <= k < n - 1 && #[trigger] s[k] == c;
                assert(earlier(s[k], s[n - 1]));
            }
        } else if s[n - 1].peer.node == target {
            assert(s.contains(s[n - 1]));
        }
    }
}

proof fn lemma_first_place<F>(s: Seq<Claim<F>>, target: NodeId, n: int)
    requires
        0 <= n <= s.len(),
        first_claim(s, target, n) is Some,
    ensures
        exists|k: int| 0 <= k < n && #[trigger] s[k] == first_claim(s, target, n).unwrap(),
    decreases n,
{
    if first_claim(s, target, n - 1) is Some {
        lemma_first_place(s, target, n - 1);
    } else {
        assert(s[n - 1] == first_claim(s, target, n).unwrap());
    }
}

/// Law: of the claims those stay that are to be kept, all of them and in their
/// order; a claim is kept for a minute after it was last heard.
pub proof fn law_claims_are_kept_for_a_minute<F>(
    s: Seq<Claim<F>>,
    keep: spec_fn(Claim<F>) -> bool,
    c: Claim<F>,
    now: u64,
    via: NodeId,
)
    ensures
        kept(s, keep, s.len() as int) == s.filter(keep),
        heard_lately::<F>(now)(c) <==> now < c.at + 60_000,
        not_by::<F>(via)(c) <==> c.voucher != via,
{
    assert(s.subrange(0, s.len() as int) =~= s);
    lemma_kept_filter(s, keep, s.len() as int);
}

proof fn lemma_kept_filter<F>(s: Seq<Claim<F>>, keep: spec_fn(Claim<F>) -> bool, n: int)
    requires
        0 <= n <= s.len(),
    ensures
        kept(s, keep, n) == s.subrange(0, n).filter(keep),
    decreases n,
{
    reveal(Seq::filter);
    let head = s.subrange(0, n);
    if n > 0 {
        lemma_kept_filter(s, keep, n - 1);
        assert(head.drop_last() =~= s.subrange(0, n - 1));
    } else {
        assert(kept(s, keep, n) =~= head.filter(keep));
    }
}

/// Law: what a machine says of another is the last that it said of it, with the
/// time at which it was heard; a machine is not told of itself, and does not
/// vouch for itself.
pub proof fn law_the_last_that_was_said_counts<F>(
    digest: Seq<VouchedPeer<F>>,
    own: NodeId,
    via: NodeId,
    now: u64,
    target: NodeId,
    i: int,
)
    ensures
        0 <= i < digest.len() && digest[i].node == target && target != own && target != via && (
        forall|k: int| i < k < digest.len() ==> (#[trigger] digest[k]).node != target) ==> said(
            digest,
            own,
            via,
            now,
            target,
            digest.len() as int,
        ) == Some(Claim { voucher: via, peer: digest[i], at: now }),
        target == own || target == via || (forall|k: int|
            0 <= k < digest.len() ==> (#[trigger] digest[k]).node != target) ==> said(
            digest,
            own,
            via,
            now,
            target,
            digest.len() as int,
        ) is None,
{
    let n = digest.len() as int;
    if 0 <= i < n && digest[i].node == target && target != own && target != via && (forall|k: int|
        i < k < n ==> (#[trigger] digest[k]).node != target) {
        lemma_said_last(digest, own, via, now, target, i, n);
    }
    if target == own || target == via || (forall|k: int|
        0 <= k < n ==> (#[trigger] digest[k]).node != target) {
        lemma_nothing_said(digest, own, via, now, target, n);
    }
}

proof fn lemma_said_last<F>(
    digest: Seq<VouchedPeer<F>>,
    own: NodeId,
    via: NodeId,
    now: u64,
    target: NodeId,
    i: int,
    n: int,
)
    requires
        0 <= i < n <= digest.len(),
        digest[i].node == target,
        target != own,
        target != via,
        forall|k: int| i < k < digest.len() ==> (#[trigger] digest[k]).node != target,
    ensures
        said(digest, own, via, now, target, n) == Some(
            Claim { voucher: via, peer: digest[i], at: now },
        ),
    decreases n,
{
    if i < n - 1 {
        lemma_said_last(digest, own, via, now, target, i, n - 1);
    }
}

proof fn lemma_nothing_said<F>(
    digest: Seq<VouchedPeer<F>>,
    own: NodeId,
    via: NodeId,
    now: u64,
    target: NodeId,
    n: int,
)
    requires
        0 <= n <= digest.len(),
        target == own || target == via || (forall|k: int|
            0 <= k < digest.len() ==> (#[trigger] digest[k]).node != target),
    ensures
        said(digest, own, via, now, target, n) is None,
    decreases n,
{
    if n > 0 {
        lemma_nothing_said(digest, own, via, now, target, n - 1);
    }
}

} // verus!
