//! Stable sorting under an order of one's own.
use vstd::prelude::*;

verus! {

/// A way of ordering values, in which two may be level.
pub trait Order<T> {
    /// `a` is listed before `b` wherever both occur.
    spec fn lt(a: T, b: T) -> bool;

    /// Whether `a` is listed before `b`.
    fn less(a: &T, b: &T) -> (r: bool)
        ensures
            r == Self::lt(*a, *b),
    ;

    /// Of two values at most one precedes the other.
    proof fn asymmetric(a: T, b: T)
        requires
            Self::lt(a, b),
        ensures
            !Self::lt(b, a),
    ;

    /// What does not come later stays so over a third value.
    proof fn chained(a: T, b: T, c: T)
        requires
            !Self::lt(b, a),
            !Self::lt(c, b),
        ensures
            !Self::lt(c, a),
    ;
}

/// Where `x` goes in an ordered list: before the first that it precedes,
/// looking from `i` on.
pub open spec fn slot<T, O: Order<T>>(s: Seq<T>, x: T, i: int) -> int
    decreases s.len() - i,
{
    if i < 0 || i >= s.len() {
        s.len() as int
    } else if O::lt(x, s[i]) {
        i
    } else {
        slot::<T, O>(s, x, i + 1)
    }
}

/// An ordered list with `x` put in its place, behind what it is level with.
pub open spec fn placed<T, O: Order<T>>(s: Seq<T>, x: T) -> Seq<T> {
    s.insert(slot::<T, O>(s, x, 0), x)
}

/// The values in order; those that are level stay as they were.
pub open spec fn arranged<T, O: Order<T>>(s: Seq<T>) -> Seq<T>
    decreases s.len(),
{
    if s.len() == 0 {
        s
    } else {
        placed::<T, O>(arranged::<T, O>(s.drop_last()), s.last())
    }
}

/// No value precedes one that is listed before it.
pub open spec fn in_order<T, O: Order<T>>(s: Seq<T>) -> bool {
    forall|i: int, j: int| 0 <= i < j < s.len() ==> !O::lt(#[trigger] s[j], #[trigger] s[i])
}

/// Where a value goes: behind all that it does not precede, before the first
/// that it does.
pub proof fn lemma_slot<T, O: Order<T>>(s: Seq<T>, x: T, i: int)
    requires
        0 <= i <= s.len(),
    ensures
        i <= slot::<T, O>(s, x, i) <= s.len(),
        forall|k: int| i <= k < slot::<T, O>(s, x, i) ==> !O::lt(x, #[trigger] s[k]),
        slot::<T, O>(s, x, i) < s.len() ==> O::lt(x, s[slot::<T, O>(s, x, i)]),
    decreases s.len() - i,
{
    if i < s.len() && !O::lt(x, s[i]) {
        lemma_slot::<T, O>(s, x, i + 1);
    }
}

proof fn lemma_placed<T, O: Order<T>>(s: Seq<T>, x: T)
    requires
        in_order::<T, O>(s),
    ensures
        in_order::<T, O>(placed::<T, O>(s, x)),
        placed::<T, O>(s, x).to_multiset() == s.to_multiset().insert(x),
        placed::<T, O>(s, x).len() == s.len() + 1,
{
    let p = slot::<T, O>(s, x, 0);
    lemma_slot::<T, O>(s, x, 0);
    let t = placed::<T, O>(s, x);
    assert forall|i: int, j: int| 0 <= i < j < t.len() implies !O::lt(
        #[trigger] t[j],
        #[trigger] t[i],
    ) by {
        let a = if i < p { i } else { i - 1 };
        let b = if j < p { j } else { j - 1 };
        if i != p {
            assert(t[i] == s[a]);
        }
        if j != p {
            assert(t[j] == s[b]);
        }
        if i == p {
            O::asymmetric(x, s[p]);
            if b > p {
                O::chained(x, s[p], s[b]);
            }
        }
    }
    t.to_multiset_ensures();
    assert(t.remove(p) =~= s);
    assert(t[p] == x);
    assert(t.contains(x));
    assert(t.to_multiset() =~= s.to_multiset().insert(x));
}

/// Sorting puts the values in order, loses none and adds none.
pub proof fn lemma_arranged<T, O: Order<T>>(s: Seq<T>)
    ensures
        in_order::<T, O>(arranged::<T, O>(s)),
        arranged::<T, O>(s).to_multiset() == s.to_multiset(),
        arranged::<T, O>(s).len() == s.len(),
    decreases s.len(),
{
    if s.len() > 0 {
        lemma_arranged::<T, O>(s.drop_last());
        lemma_placed::<T, O>(arranged::<T, O>(s.drop_last()), s.last());
        s.drop_last().to_multiset_ensures();
        assert(s.drop_last().push(s.last()) =~= s);
    }
}

/// What is in a sorted list was in the list, and the other way round.
pub proof fn lemma_arranged_contains<T, O: Order<T>>(s: Seq<T>, x: T)
    ensures
        arranged::<T, O>(s).contains(x) <==> s.contains(x),
{
    lemma_arranged::<T, O>(s);
    arranged::<T, O>(s).to_multiset_ensures();
    s.to_multiset_ensures();
    broadcast use vstd::seq_lib::group_to_multiset_ensures;

    assert(arranged::<T, O>(s).contains(x) <==> arranged::<T, O>(s).to_multiset().count(x) > 0);
    assert(s.contains(x) <==> s.to_multiset().count(x) > 0);
}

fn put<T, O: Order<T>>(v: &mut Vec<T>, x: T)
    ensures
        final(v)@ == placed::<T, O>(old(v)@, x),
{
    let mut i: usize = 0;
    while i < v.len() && !O::less(&x, &v[i])
        invariant
            v@ == old(v)@,
            i <= v.len(),
            slot::<T, O>(v@, x, 0) == slot::<T, O>(v@, x, i as int),
        decreases v.len() - i,
    {
        i += 1;
    }
    v.insert(i, x);
}

/// Sorts a list; values that are level stay as they were.
pub fn arrange<T, O: Order<T>>(v: Vec<T>) -> (r: Vec<T>)
    ensures
        r@ == arranged::<T, O>(v@),
{
    let ghost all = v@;
    let mut rest = v;
    let mut out: Vec<T> = Vec::new();
    let ghost mut n: int = 0;
    assert(all.subrange(0, 0) =~= Seq::empty());
    assert(all.subrange(0, all.len() as int) =~= all);
    assert(rest@ =~= all.subrange(0, all.len() as int));
    while rest.len() > 0
        invariant
            0 <= n <= all.len(),
            rest@ == all.subrange(n, all.len() as int),
            out@ == arranged::<T, O>(all.subrange(0, n)),
        decreases rest.len(),
    {
        let x = rest.remove(0);
        assert(x == all[n]);
        assert(rest@ =~= all.subrange(n + 1, all.len() as int));
        let ghost next = all.subrange(0, n + 1);
        assert(next.drop_last() =~= all.subrange(0, n));
        assert(next.last() == x);
        put::<T, O>(&mut out, x);
        proof {
            n = n + 1;
        }
    }
    assert(n == all.len());
    assert(all.subrange(0, n) =~= all);
    out
}

/// The values of a list that are picked, in order.
pub open spec fn picked<T>(s: Seq<T>, p: spec_fn(T) -> bool) -> Seq<T>
    decreases s.len(),
{
    if s.len() == 0 {
        Seq::empty()
    } else if p(s.last()) {
        picked(s.drop_last(), p).push(s.last())
    } else {
        picked(s.drop_last(), p)
    }
}

proof fn lemma_picked_insert<T>(s: Seq<T>, k: int, x: T, p: spec_fn(T) -> bool)
    requires
        0 <= k <= s.len(),
        p(x) ==> forall|j: int| k <= j < s.len() ==> !p(#[trigger] s[j]),
    ensures
        picked(s.insert(k, x), p) == (if p(x) {
            picked(s, p).push(x)
        } else {
            picked(s, p)
        }),
    decreases s.len(),
{
    let t = s.insert(k, x);
    if k == s.len() {
        assert(t.drop_last() =~= s);
    } else {
        assert(t.last() == s.last());
        assert(t.drop_last() =~= s.drop_last().insert(k, x));
        assert(!p(x) || !p(s[s.len() - 1]));
        assert forall|j: int| p(x) && k <= j < s.drop_last().len() implies !p(
            #[trigger] s.drop_last()[j],
        ) by {
            assert(s.drop_last()[j] == s[j]);
        }
        lemma_picked_insert(s.drop_last(), k, x, p);
    }
}

/// Sorting is stable: values that are level with each other stay as they
/// were.
pub proof fn lemma_stable<T, O: Order<T>>(s: Seq<T>, p: spec_fn(T) -> bool)
    requires
        forall|i: int, j: int|
            0 <= i < s.len() && 0 <= j < s.len() && p(s[i]) && p(s[j]) ==> !O::lt(
                #[trigger] s[i],
                #[trigger] s[j],
            ),
    ensures
        picked(arranged::<T, O>(s), p) == picked(s, p),
    decreases s.len(),
{
    if s.len() > 0 {
        let front = s.drop_last();
        let x = s.last();
        let q = arranged::<T, O>(front);
        assert forall|i: int, j: int|
            0 <= i < front.len() && 0 <= j < front.len() && p(front[i]) && p(front[j]) implies !O::lt(
            #[trigger] front[i],
            #[trigger] front[j],
        ) by {
            assert(front[i] == s[i] && front[j] == s[j]);
        }
        lemma_stable::<T, O>(front, p);
        lemma_arranged::<T, O>(front);
        let k = slot::<T, O>(q, x, 0);
        lemma_slot::<T, O>(q, x, 0);
        assert forall|j: int| p(x) && k <= j < q.len() implies !p(#[trigger] q[j]) by {
            if !O::lt(x, q[j]) {
                if j > k {
                    O::chained(q[k], q[j], x);
                }
            }
            lemma_arranged_contains::<T, O>(front, q[j]);
            assert(q.contains(q[j]));
            let m = choose|m: int| 0 <= m < front.len() && front[m] == q[j];
            assert(s[m] == q[j]);
            assert(s[s.len() - 1] == x);
        }
        lemma_picked_insert(q, k, x, p);
    }
}

} // verus!
