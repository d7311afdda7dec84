//! Machine identities and the ordered tables keyed by them.
use crate::text;
use vstd::prelude::*;

verus! {

/// The fingerprint of a machine's public key: 32 bytes, read as one number
/// in two halves, most significant byte first.
#[derive(Clone, Copy, Debug, PartialEq, Eq, Structural)]
pub struct NodeId {
    pub hi: u128,
    pub lo: u128,
}

/// The number that bytes stand for, most significant byte first.
pub open spec fn big_endian(b: Seq<u8>) -> nat
    decreases b.len(),
{
    if b.len() == 0 {
        0
    } else {
        big_endian(b.drop_last()) * 256 + b.last() as nat
    }
}

/// `256` to the power `n`.
pub open spec fn pow256(n: nat) -> nat
    decreases n,
{
    if n == 0 {
        1
    } else {
        256 * pow256((n - 1) as nat)
    }
}

/// `16` to the power `n`.
pub open spec fn pow16(n: nat) -> nat
    decreases n,
{
    if n == 0 {
        1
    } else {
        16 * pow16((n - 1) as nat)
    }
}

/// One lower-case hexadecimal digit.
pub open spec fn hex_digit(d: nat) -> char {
    if d < 10 {
        (48 + d) as char
    } else {
        (87 + d) as char
    }
}

/// The last `w` lower-case hexadecimal digits of a number.
pub open spec fn hex_fixed(n: nat, w: nat) -> Seq<char>
    decreases w,
{
    if w == 0 {
        Seq::empty()
    } else {
        hex_fixed(n / 16, (w - 1) as nat).push(hex_digit(n % 16))
    }
}

/// What one lower- or upper-case hexadecimal digit stands for.
pub open spec fn hex_value(c: char) -> Option<nat> {
    if '0' <= c && c <= '9' {
        Some((c as nat - 48) as nat)
    } else if 'a' <= c && c <= 'f' {
        Some((c as nat - 87) as nat)
    } else if 'A' <= c && c <= 'F' {
        Some((c as nat - 55) as nat)
    } else {
        None
    }
}

/// The number that hexadecimal digits stand for, when all of them are digits.
pub open spec fn hex_number(s: Seq<char>) -> Option<nat>
    decreases s.len(),
{
    if s.len() == 0 {
        Some(0)
    } else {
        match (hex_number(s.drop_last()), hex_value(s.last())) {
            (Some(n), Some(d)) => Some(n * 16 + d),
            _ => None,
        }
    }
}

proof fn lemma_hex_fixed_len(n: nat, w: nat)
    ensures
        hex_fixed(n, w).len() == w,
    decreases w,
{
    if w > 0 {
        lemma_hex_fixed_len(n / 16, (w - 1) as nat);
    }
}

proof fn lemma_hex_digit(d: nat)
    requires
        d < 16,
    ensures
        hex_value(hex_digit(d)) == Some(d),
{
}

proof fn lemma_hex_fixed_back(n: nat, w: nat)
    requires
        n < pow16(w),
    ensures
        hex_number(hex_fixed(n, w)) == Some(n),
    decreases w,
{
    if w > 0 {
        let s = hex_fixed(n, w);
        assert(n / 16 < pow16((w - 1) as nat)) by (nonlinear_arith)
            requires
                n < 16 * pow16((w - 1) as nat),
        ;
        lemma_hex_fixed_back(n / 16, (w - 1) as nat);
        lemma_hex_digit(n % 16);
        assert(s.drop_last() =~= hex_fixed(n / 16, (w - 1) as nat));
        assert(s.last() == hex_digit(n % 16));
    }
}

proof fn lemma_pow16_32()
    ensures
        pow16(32) == 0x1_0000_0000_0000_0000_0000_0000_0000_0000nat,
{
    reveal_with_fuel(pow16, 33);
}

proof fn lemma_pow256_step(i: nat)
    requires
        i < 16,
    ensures
        pow256(i + 1) == 256 * pow256(i),
        pow256(i) <= 0x1_0000_0000_0000_0000_0000_0000_0000_00nat,
{
    reveal_with_fuel(pow256, 17);
}

proof fn lemma_pow16_step(i: nat)
    requires
        i < 32,
    ensures
        pow16(i + 1) == 16 * pow16(i),
        pow16(i) <= 0x1000_0000_0000_0000_0000_0000_0000_0000nat,
{
    reveal_with_fuel(pow16, 33);
}

fn nibble(d: u8) -> (c: char)
    requires
        d < 16,
    ensures
        c == hex_digit(d as nat),
{
    if d < 10 {
        (48u8 + d) as char
    } else {
        (87u8 + d) as char
    }
}

fn nibble_value(c: char) -> (r: Option<u8>)
    ensures
        match r {
            Some(d) => hex_value(c) == Some(d as nat) && d < 16,
            None => hex_value(c) is None,
        },
{
    if '0' <= c && c <= '9' {
        Some((c as u32 - 48) as u8)
    } else if 'a' <= c && c <= 'f' {
        Some((c as u32 - 87) as u8)
    } else if 'A' <= c && c <= 'F' {
        Some((c as u32 - 55) as u8)
    } else {
        None
    }
}

fn hex_half(n: u128, w: u8) -> (s: String)
    ensures
        s@ == hex_fixed(n as nat, w as nat),
    decreases w,
{
    if w == 0 {
        let s = String::new();
        assert(s@ =~= hex_fixed(n as nat, 0));
        s
    } else {
        let mut s = hex_half(n / 16, w - 1);
        s.push(nibble((n % 16) as u8));
        s
    }
}

fn read_half(v: &Vec<char>, from: usize) -> (r: Option<u128>)
    requires
        from + 32 <= v.len(),
    ensures
        match r {
            Some(n) => hex_number(v@.subrange(from as int, from + 32)) == Some(n as nat),
            None => hex_number(v@.subrange(from as int, from + 32)) is None,
        },
{
    let mut n: u128 = 0;
    let mut i: usize = 0;
    assert(v@.subrange(from as int, from as int) =~= Seq::empty());
    while i < 32
        invariant
            from + 32 <= v.len(),
            i <= 32,
            hex_number(v@.subrange(from as int, from + i)) == Some(n as nat),
            n < pow16(i as nat),
        decreases 32 - i,
    {
        let ghost next = v@.subrange(from as int, from + i + 1);
        assert(next.drop_last() =~= v@.subrange(from as int, from + i));
        assert(next.last() == v@[from + i]);
        match nibble_value(v[from + i]) {
            Some(d) => {
                proof {
                    lemma_pow16_step(i as nat);
                }
                n = n * 16 + d as u128;
            },
            None => {
                proof {
                    lemma_hex_none(v@.subrange(from as int, from + 32), i + 1);
                    assert(v@.subrange(from as int, from + 32).subrange(0, i + 1) =~= next);
                }
                return None;
            },
        }
        i += 1;
    }
    Some(n)
}

proof fn lemma_hex_none(s: Seq<char>, i: int)
    requires
        0 <= i <= s.len(),
        hex_number(s.subrange(0, i)) is None,
    ensures
        hex_number(s) is None,
    decreases s.len(),
{
    if i == s.len() {
        assert(s.subrange(0, i) =~= s);
    } else {
        assert(s.drop_last().subrange(0, i) =~= s.subrange(0, i));
        lemma_hex_none(s.drop_last(), i);
    }
}

fn half_of(b: &[u8; 32], from: usize) -> (n: u128)
    requires
        from == 0 || from == 16,
    ensures
        n == big_endian(b@.subrange(from as int, from + 16)),
{
    let mut n: u128 = 0;
    let mut i: usize = 0;
    assert(b@.subrange(from as int, from as int) =~= Seq::empty());
    while i < 16
        invariant
            from == 0 || from == 16,
            i <= 16,
            n == big_endian(b@.subrange(from as int, from + i)),
            n < pow256(i as nat),
        decreases 16 - i,
    {
        let ghost next = b@.subrange(from as int, from + i + 1);
        assert(next.drop_last() =~= b@.subrange(from as int, from + i));
        assert(next.last() == b@[from + i]);
        proof {
            lemma_pow256_step(i as nat);
        }
        n = n * 256 + b[from + i] as u128;
        i += 1;
    }
    n
}

impl NodeId {
    /// The identity as 64 lower-case hexadecimal digits.
    pub open spec fn hex(self) -> Seq<char> {
        hex_fixed(self.hi as nat, 32) + hex_fixed(self.lo as nat, 32)
    }

    /// The first eight digits, by which people name a machine.
    pub open spec fn brief(self) -> Seq<char> {
        self.hex().subrange(0, 8)
    }

    /// The numeric order of identities.
    pub open spec fn lt(self, other: NodeId) -> bool {
        self.hi < other.hi || (self.hi == other.hi && self.lo < other.lo)
    }

    /// The identity with these bytes.
    pub fn from_bytes(b: [u8; 32]) -> (id: NodeId)
        ensures
            id.hi == big_endian(b@.subrange(0, 16)),
            id.lo == big_endian(b@.subrange(16, 32)),
    {
        NodeId { hi: half_of(&b, 0), lo: half_of(&b, 16) }
    }

    /// The identity that 64 hexadecimal digits spell.
    pub fn parse(s: &str) -> (r: Option<NodeId>)
        ensures
            match r {
                Some(id) => s@.len() == 64 && hex_number(s@.subrange(0, 32)) == Some(id.hi as nat)
                    && hex_number(s@.subrange(32, 64)) == Some(id.lo as nat),
                None => s@.len() != 64 || hex_number(s@.subrange(0, 32)) is None || hex_number(
                    s@.subrange(32, 64),
                ) is None,
            },
    {
        let v = text::to_chars(s);
        if v.len() != 64 {
            return None;
        }
        match read_half(&v, 0) {
            None => None,
            Some(hi) => match read_half(&v, 32) {
                None => None,
                Some(lo) => Some(NodeId { hi, lo }),
            },
        }
    }

    /// The identity as 64 lower-case hexadecimal digits.
    pub fn to_hex(&self) -> (s: String)
        ensures
            s@ == self.hex(),
    {
        let a = hex_half(self.hi, 32);
        let b = hex_half(self.lo, 32);
        text::cat2(&a, &b)
    }

    /// The first eight digits, by which people name a machine.
    pub fn short(&self) -> (s: String)
        ensures
            s@ == self.brief(),
    {
        proof {
            lemma_hex_fixed_len(self.hi as nat, 32);
        }
        let whole = self.to_hex();
        let v = text::to_chars(&whole);
        text::from_range(&v, 0, 8)
    }

    /// Whether this identity is numerically smaller.
    pub fn before(&self, other: &NodeId) -> (r: bool)
        ensures
            r == self.lt(*other),
    {
        self.hi < other.hi || (self.hi == other.hi && self.lo < other.lo)
    }
}

/// Law: an identity written out reads back as itself.
pub proof fn law_identity_round_trip(id: NodeId)
    ensures
        id.hex().len() == 64,
        hex_number(id.hex().subrange(0, 32)) == Some(id.hi as nat),
        hex_number(id.hex().subrange(32, 64)) == Some(id.lo as nat),
{
    lemma_hex_fixed_len(id.hi as nat, 32);
    lemma_hex_fixed_len(id.lo as nat, 32);
    lemma_pow16_32();
    lemma_hex_fixed_back(id.hi as nat, 32);
    lemma_hex_fixed_back(id.lo as nat, 32);
    assert(id.hex().subrange(0, 32) =~= hex_fixed(id.hi as nat, 32));
    assert(id.hex().subrange(32, 64) =~= hex_fixed(id.lo as nat, 32));
}

// ---------------------------------------------------------------------------
// Tables keyed by identity
// ---------------------------------------------------------------------------

/// Entries in strictly ascending order of identity.
pub open spec fn ascending<V>(s: Seq<(NodeId, V)>) -> bool {
    forall|i: int, j: int| 0 <= i < j < s.len() ==> (#[trigger] s[i]).0.lt((#[trigger] s[j]).0)
}

/// What the entries hold for an identity.
pub open spec fn lookup<V>(s: Seq<(NodeId, V)>, id: NodeId) -> Option<V>
    decreases s.len(),
{
    if s.len() == 0 {
        None
    } else if s.last().0 == id {
        Some(s.last().1)
    } else {
        lookup(s.drop_last(), id)
    }
}

/// An entry of an ascending table is what a lookup of its identity finds.
pub proof fn lemma_lookup_entry<V>(s: Seq<(NodeId, V)>, i: int)
    requires
        ascending(s),
        0 <= i < s.len(),
    ensures
        lookup(s, s[i].0) == Some(s[i].1),
    decreases s.len(),
{
    if i < s.len() - 1 {
        assert(s[i].0.lt(s[s.len() - 1].0));
        assert(s.drop_last()[i] == s[i]);
        lemma_lookup_entry(s.drop_last(), i);
    }
}

/// A lookup that finds something found it in an entry.
pub proof fn lemma_lookup_found<V>(s: Seq<(NodeId, V)>, id: NodeId) -> (i: int)
    requires
        lookup(s, id) is Some,
    ensures
        0 <= i < s.len(),
        s[i].0 == id,
        lookup(s, id) == Some(s[i].1),
    decreases s.len(),
{
    if s.last().0 == id {
        s.len() - 1
    } else {
        let i = lemma_lookup_found(s.drop_last(), id);
        assert(s.drop_last()[i] == s[i]);
        i
    }
}

/// A lookup finds nothing where no entry has the identity.
pub proof fn lemma_lookup_absent<V>(s: Seq<(NodeId, V)>, id: NodeId)
    requires
        forall|i: int| 0 <= i < s.len() ==> (#[trigger] s[i]).0 != id,
    ensures
        lookup(s, id) is None,
    decreases s.len(),
{
    if s.len() > 0 {
        assert(s[s.len() - 1].0 != id);
        assert forall|i: int| 0 <= i < s.drop_last().len() implies (#[trigger] s.drop_last()[i]).0
            != id by {
            assert(s.drop_last()[i] == s[i]);
        }
        lemma_lookup_absent(s.drop_last(), id);
    }
}

/// A table keyed by identity, its entries in ascending order.
#[derive(Debug)]
pub struct NodeMap<V> {
    entries: Vec<(NodeId, V)>,
}

impl<V> NodeMap<V> {
    #[verifier::type_invariant]
    spec fn ordered(self) -> bool {
        ascending(self.entries@)
    }

    /// The entries, in ascending order of identity.
    pub closed spec fn listing(self) -> Seq<(NodeId, V)> {
        self.entries@
    }

    /// What the table holds for an identity.
    pub open spec fn at(self, id: NodeId) -> Option<V> {
        lookup(self.listing(), id)
    }

    /// An empty table.
    pub fn new() -> (m: Self)
        ensures
            m.listing() == Seq::<(NodeId, V)>::empty(),
    {
        NodeMap { entries: Vec::new() }
    }

    /// How many identities the table holds.
    pub fn len(&self) -> (n: usize)
        ensures
            n == self.listing().len(),
            ascending(self.listing()),
    {
        proof {
            use_type_invariant(self);
        }
        self.entries.len()
    }

    /// The identity of the entry at a place.
    pub fn id_at(&self, i: usize) -> (id: NodeId)
        requires
            i < self.listing().len(),
        ensures
            id == self.listing()[i as int].0,
    {
        self.entries[i].0
    }

    /// The value of the entry at a place.
    pub fn value_at(&self, i: usize) -> (v: &V)
        requires
            i < self.listing().len(),
        ensures
            *v == self.listing()[i as int].1,
    {
        &self.entries[i].1
    }

    fn place(&self, id: NodeId) -> (i: usize)
        ensures
            i <= self.entries@.len(),
            forall|k: int| 0 <= k < i ==> (#[trigger] self.entries@[k]).0.lt(id),
            forall|k: int| i <= k < self.entries@.len() ==> !(#[trigger] self.entries@[k]).0.lt(id),
    {
        proof {
            use_type_invariant(self);
        }
        let mut i: usize = 0;
        while i < self.entries.len() && self.entries[i].0.before(&id)
            invariant
                ascending(self.entries@),
                i <= self.entries@.len(),
                forall|k: int| 0 <= k < i ==> (#[trigger] self.entries@[k]).0.lt(id),
            decreases self.entries@.len() - i,
        {
            i += 1;
        }
        i
    }

    /// What the table holds for an identity.
    pub fn get(&self, id: NodeId) -> (r: Option<&V>)
        ensures
            match r {
                Some(v) => self.at(id) == Some(*v),
                None => self.at(id) is None,
            },
    {
        proof {
            use_type_invariant(self);
        }
        let i = self.place(id);
        if i < self.entries.len() && self.entries[i].0 == id {
            proof {
                lemma_lookup_entry(self.entries@, i as int);
            }
            Some(&self.entries[i].1)
        } else {
            proof {
                assert forall|k: int| 0 <= k < self.entries@.len() implies (
                #[trigger] self.entries@[k]).0 != id by {
                    if k > i {
                        assert(self.entries@[i as int].0.lt(self.entries@[k].0));
                    }
                }
                lemma_lookup_absent(self.entries@, id);
            }
            None
        }
    }

    /// Whether the table holds anything for an identity.
    pub fn contains(&self, id: NodeId) -> (r: bool)
        ensures
            r == (self.at(id) is Some),
    {
        self.get(id).is_some()
    }

    /// Puts a value at an identity, in place of what was there.
    pub fn insert(&mut self, id: NodeId, value: V)
        ensures
            forall|k: NodeId| #[trigger]
                final(self).at(k) == (if k == id {
                    Some(value)
                } else {
                    old(self).at(k)
                }),
            old(self).at(id) is Some ==> final(self).listing().len() == old(self).listing().len(),
            old(self).at(id) is None ==> final(self).listing().len() == old(self).listing().len()
                + 1,
    {
        proof {
            use_type_invariant(&*self);
        }
        let ghost before = self.entries@;
        let i = self.place(id);
        let mut entries: Vec<(NodeId, V)> = Vec::new();
        std::mem::swap(&mut entries, &mut self.entries);
        if i < entries.len() && entries[i].0 == id {
            let gone = entries.remove(i);
            entries.insert(i, (id, value));
            proof {
                lemma_lookup_entry(before, i as int);
                lemma_put(before, entries@, i as int, id, value);
            }
        } else {
            entries.insert(i, (id, value));
            proof {
                lemma_insert(before, entries@, i as int, id, value);
            }
        }
        self.entries = entries;
    }

    /// Takes an identity out of the table; whether it was there.
    pub fn remove(&mut self, id: NodeId) -> (r: bool)
        ensures
            r == (old(self).at(id) is Some),
            forall|k: NodeId| #[trigger]
                final(self).at(k) == (if k == id {
                    None
                } else {
                    old(self).at(k)
                }),
            !r ==> final(self).listing() == old(self).listing(),
            r ==> final(self).listing().len() + 1 == old(self).listing().len(),
    {
        proof {
            use_type_invariant(&*self);
        }
        let ghost before = self.entries@;
        let i = self.place(id);
        let mut entries: Vec<(NodeId, V)> = Vec::new();
        std::mem::swap(&mut entries, &mut self.entries);
        let found = i < entries.len() && entries[i].0 == id;
        if found {
            let gone = entries.remove(i);
            proof {
                lemma_take(before, entries@, i as int);
            }
        } else {
            proof {
                assert forall|k: int| 0 <= k < before.len() implies (#[trigger] before[k]).0
                    != id by {
                    if k > i {
                        assert(before[i as int].0.lt(before[k].0));
                    }
                }
                lemma_lookup_absent(before, id);
            }
        }
        self.entries = entries;
        found
    }
}

/// Two ascending tables whose entries at every identity other than `id` are
/// the same agree on lookups there.
proof fn lemma_agree<V>(s: Seq<(NodeId, V)>, t: Seq<(NodeId, V)>, id: NodeId)
    requires
        ascending(s),
        ascending(t),
        forall|i: int|
            0 <= i < s.len() && s[i].0 != id ==> exists|j: int|
                0 <= j < t.len() && t[j] == #[trigger] s[i],
        forall|i: int|
            0 <= i < t.len() && t[i].0 != id ==> exists|j: int|
                0 <= j < s.len() && s[j] == #[trigger] t[i],
    ensures
        forall|k: NodeId| k != id ==> #[trigger] lookup(s, k) == lookup(t, k),
{
    assert forall|k: NodeId| k != id implies #[trigger] lookup(s, k) == lookup(t, k) by {
        if lookup(s, k) is Some {
            let i = lemma_lookup_found(s, k);
            let j = choose|j: int| 0 <= j < t.len() && t[j] == s[i];
            lemma_lookup_entry(t, j);
        } else if lookup(t, k) is Some {
            let i = lemma_lookup_found(t, k);
            let j = choose|j: int| 0 <= j < s.len() && s[j] == t[i];
            lemma_lookup_entry(s, j);
        }
    }
}

proof fn lemma_put<V>(
    s: Seq<(NodeId, V)>,
    t: Seq<(NodeId, V)>,
    i: int,
    id: NodeId,
    value: V,
)
    requires
        ascending(s),
        0 <= i < s.len(),
        s[i].0 == id,
        t == s.remove(i).insert(i, (id, value)),
    ensures
        ascending(t),
        forall|k: NodeId| #[trigger]
            lookup(t, k) == (if k == id {
                Some(value)
            } else {
                lookup(s, k)
            }),
{
    assert(t =~= s.update(i, (id, value)));
    assert(ascending(t));
    lemma_lookup_entry(t, i);
    assert forall|k: int| 0 <= k < s.len() && s[k].0 != id implies exists|j: int|
        0 <= j < t.len() && t[j] == #[trigger] s[k] by {
        assert(t[k] == s[k]);
    }
    assert forall|k: int| 0 <= k < t.len() && t[k].0 != id implies exists|j: int|
        0 <= j < s.len() && s[j] == #[trigger] t[k] by {
        assert(s[k] == t[k]);
    }
    lemma_agree(t, s, id);
}

proof fn lemma_insert<V>(
    s: Seq<(NodeId, V)>,
    t: Seq<(NodeId, V)>,
    i: int,
    id: NodeId,
    value: V,
)
    requires
        ascending(s),
        0 <= i <= s.len(),
        forall|k: int| 0 <= k < i ==> (#[trigger] s[k]).0.lt(id),
        forall|k: int| i <= k < s.len() ==> !(#[trigger] s[k]).0.lt(id),
        i < s.len() ==> s[i].0 != id,
        t == s.insert(i, (id, value)),
    ensures
        ascending(t),
        lookup(s, id) is None,
        forall|k: NodeId| #[trigger]
            lookup(t, k) == (if k == id {
                Some(value)
            } else {
                lookup(s, k)
            }),
{
    assert forall|k: int| 0 <= k < s.len() implies (#[trigger] s[k]).0 != id by {
        if k > i {
            assert(s[i].0.lt(s[k].0));
        }
    }
    lemma_lookup_absent(s, id);
    assert forall|a: int, b: int| 0 <= a < b < t.len() implies (#[trigger] t[a]).0.lt(
        (#[trigger] t[b]).0,
    ) by {
        let x = if a < i { a } else { a - 1 };
        let y = if b < i { b } else { b - 1 };
        if a != i {
            assert(t[a] == s[x]);
        }
        if b != i {
            assert(t[b] == s[y]);
        }
    }
    lemma_lookup_entry(t, i);
    assert forall|k: int| 0 <= k < s.len() && s[k].0 != id implies exists|j: int|
        0 <= j < t.len() && t[j] == #[trigger] s[k] by {
        let j = if k < i { k } else { k + 1 };
        assert(t[j] == s[k]);
    }
    assert forall|k: int| 0 <= k < t.len() && t[k].0 != id implies exists|j: int|
        0 <= j < s.len() && s[j] == #[trigger] t[k] by {
        let j = if k < i { k } else { k - 1 };
        assert(s[j] == t[k]);
    }
    lemma_agree(t, s, id);
}

proof fn lemma_take<V>(s: Seq<(NodeId, V)>, t: Seq<(NodeId, V)>, i: int)
    requires
        ascending(s),
        0 <= i < s.len(),
        t == s.remove(i),
    ensures
        ascending(t),
        lookup(s, s[i].0) is Some,
        forall|k: NodeId| #[trigger]
            lookup(t, k) == (if k == s[i].0 {
                None
            } else {
                lookup(s, k)
            }),
{
    let id = s[i].0;
    lemma_lookup_entry(s, i);
    assert forall|a: int, b: int| 0 <= a < b < t.len() implies (#[trigger] t[a]).0.lt(
        (#[trigger] t[b]).0,
    ) by {
        let x = if a < i { a } else { a + 1 };
        let y = if b < i { b } else { b + 1 };
        assert(t[a] == s[x] && t[b] == s[y]);
    }
    assert forall|k: int| 0 <= k < t.len() implies (#[trigger] t[k]).0 != id by {
        let x = if k < i { k } else { k + 1 };
        assert(t[k] == s[x]);
        assert(x < i ==> s[x].0.lt(s[i].0));
        assert(x > i ==> s[i].0.lt(s[x].0));
    }
    lemma_lookup_absent(t, id);
    assert forall|k: int| 0 <= k < s.len() && s[k].0 != id implies exists|j: int|
        0 <= j < t.len() && t[j] == #[trigger] s[k] by {
        let j = if k < i { k } else { k - 1 };
        assert(t[j] == s[k]);
    }
    assert forall|k: int| 0 <= k < t.len() && t[k].0 != id implies exists|j: int|
        0 <= j < s.len() && s[j] == #[trigger] t[k] by {
        let j = if k < i { k } else { k + 1 };
        assert(s[j] == t[k]);
    }
    lemma_agree(t, s, id);
}

/// Law: an identity is written in 64 small hexadecimal digits, and its short
/// form is the first eight of them.
pub proof fn law_an_identity_is_written_small(id: NodeId, i: int)
    ensures
        id.hex().len() == 64,
        0 <= i < 64 ==> ('0' <= id.hex()[i] && id.hex()[i] <= '9') || ('a' <= id.hex()[i]
            && id.hex()[i] <= 'f'),
        id.brief().len() == 8,
        0 <= i < 8 ==> id.brief()[i] == id.hex()[i],
{
    lemma_small_digits(id.hi as nat, 32);
    lemma_small_digits(id.lo as nat, 32);
    if 0 <= i < 32 {
        assert(id.hex()[i] == hex_fixed(id.hi as nat, 32)[i]);
    } else if 32 <= i < 64 {
        assert(id.hex()[i] == hex_fixed(id.lo as nat, 32)[i - 32]);
    }
}

proof fn lemma_small_digits(n: nat, w: nat)
    ensures
        hex_fixed(n, w).len() == w,
        forall|i: int|
            0 <= i < w ==> ('0' <= #[trigger] hex_fixed(n, w)[i] && hex_fixed(n, w)[i] <= '9') || (
            'a' <= hex_fixed(n, w)[i] && hex_fixed(n, w)[i] <= 'f'),
    decreases w,
{
    if w > 0 {
        lemma_small_digits(n / 16, (w - 1) as nat);
        let front = hex_fixed(n / 16, (w - 1) as nat);
        assert forall|i: int| 0 <= i < w implies ('0' <= #[trigger] hex_fixed(n, w)[i]
            && hex_fixed(n, w)[i] <= '9') || ('a' <= hex_fixed(n, w)[i] && hex_fixed(n, w)[i]
            <= 'f') by {
            if i < w - 1 {
                assert(hex_fixed(n, w)[i] == front[i]);
            }
        }
    }
}

/// Law: what is looked up in an ordered listing is what stands in it under
/// that identity, and nothing where nothing does.
pub proof fn law_a_listing_gives_what_it_holds<V>(s: Seq<(NodeId, V)>, id: NodeId, v: V)
    requires
        ascending(s),
    ensures
        lookup(s, id) == Some(v) <==> s.contains((id, v)),
        lookup(s, id) is None <==> forall|i: int| 0 <= i < s.len() ==> (#[trigger] s[i]).0 != id,
    decreases s.len(),
{
    if s.len() > 0 {
        let front = s.drop_last();
        let n = s.len() - 1;
        assert(ascending(front)) by {
            assert forall|i: int, j: int| 0 <= i < j < front.len() implies (
            #[trigger] front[i]).0.lt((#[trigger] front[j]).0) by {
                assert(s[i].0.lt(s[j].0));
            }
        }
        law_a_listing_gives_what_it_holds(front, id, v);
        assert forall|i: int| 0 <= i < n implies (#[trigger] s[i]).0 != s[n].0 by {
            assert(s[i].0.lt(s[n].0));
        }
        if s.contains((id, v)) {
            let i = choose|i: int| 0 <= i < s.len() && s[i] == (id, v);
            if i < n {
                assert(front[i] == (id, v));
            }
        }
        if front.contains((id, v)) {
            let i = choose|i: int| 0 <= i < front.len() && front[i] == (id, v);
            assert(s[i] == (id, v));
        }
        if s[n].0 == id {
            assert(s.contains(s[n]));
            if s.contains((id, v)) {
                let i = choose|i: int| 0 <= i < s.len() && s[i] == (id, v);
                assert(i == n);
            }
        } else {
            if forall|i: int| 0 <= i < front.len() ==> (#[trigger] front[i]).0 != id {
                assert forall|i: int| 0 <= i < s.len() implies (#[trigger] s[i]).0 != id by {
                    if i < n {
                        assert(front[i] == s[i]);
                    }
                }
            } else {
                let i = choose|i: int| 0 <= i < front.len() && (#[trigger] front[i]).0 == id;
                assert(s[i].0 == id);
            }
        }
    }
}

/// Law: hexadecimal is read in either case, digit by digit.
pub proof fn law_hexadecimal_is_read_in_either_case(s: Seq<char>, c: char)
    ensures
        '0' <= c && c <= '9' ==> hex_value(c) == Some((c as nat - '0' as nat) as nat),
        'a' <= c && c <= 'f' ==> hex_value(c) == Some((c as nat - 'a' as nat + 10) as nat),
        'A' <= c && c <= 'F' ==> hex_value(c) == Some((c as nat - 'A' as nat + 10) as nat),
        hex_number(s.push(c)) == (match (hex_number(s), hex_value(c)) {
            (Some(n), Some(x)) => Some(16 * n + x),
            _ => None,
        }),
{
    assert(s.push(c).drop_last() =~= s);
}

} // verus!
