//! Lists of names with values: every name once, in ascending order. This is
//! how settings, parameters, environments and snapshots are held, so that two
//! of them hold the same exactly when they are the same list.
use crate::text;
use vstd::prelude::*;

verus! {

/// Every name once, in ascending order.
pub open spec fn keyed<V>(v: Seq<(String, V)>) -> bool {
    forall|i: int, j: int|
        0 <= i < j < v.len() ==> text::precedes((#[trigger] v[i]).0@, (#[trigger] v[j]).0@)
}

/// What a list says of a name. Where a name stands twice, the last counts.
pub open spec fn value_of<V>(v: Seq<(String, V)>, name: Seq<char>) -> Option<V>
    decreases v.len(),
{
    if v.len() == 0 {
        None
    } else if v.last().0@ == name {
        Some(v.last().1)
    } else {
        value_of(v.drop_last(), name)
    }
}

/// Two lists that say the same of every name.
pub open spec fn say_the_same<V>(a: Seq<(String, V)>, b: Seq<(String, V)>) -> bool {
    forall|name: Seq<char>| #[trigger] value_of(a, name) == value_of(b, name)
}

/// The same names with the same values, one by one.
pub open spec fn same_list<V>(a: Seq<(String, V)>, b: Seq<(String, V)>) -> bool {
    a.len() == b.len() && forall|i: int|
        0 <= i < a.len() ==> (#[trigger] a[i]).0@ == (#[trigger] b[i]).0@ && a[i].1 == b[i].1
}

proof fn lemma_value_of<V>(v: Seq<(String, V)>, name: Seq<char>)
    ensures
        match value_of(v, name) {
            Some(x) => exists|i: int|
                0 <= i < v.len() && (#[trigger] v[i]).0@ == name && v[i].1 == x,
            None => forall|i: int| 0 <= i < v.len() ==> (#[trigger] v[i]).0@ != name,
        },
    decreases v.len(),
{
    if v.len() > 0 {
        let head = v.drop_last();
        lemma_value_of(head, name);
        if v.last().0@ == name {
            assert(v[v.len() - 1].0@ == name);
        } else if value_of(head, name) is Some {
            let i = choose|i: int|
                0 <= i < head.len() && (#[trigger] head[i]).0@ == name && head[i].1 == value_of(
                    head,
                    name,
                ).unwrap();
            assert(v[i].0@ == name && v[i].1 == head[i].1);
        } else {
            assert forall|i: int| 0 <= i < v.len() implies (#[trigger] v[i]).0@ != name by {
                if i < head.len() {
                    assert(head[i].0@ != name);
                }
            }
        }
    }
}

/// A keyed list says of each name in it what stands beside the name.
pub proof fn lemma_value_at<V>(v: Seq<(String, V)>, i: int)
    requires
        keyed(v),
        0 <= i < v.len(),
    ensures
        value_of(v, v[i].0@) == Some(v[i].1),
{
    lemma_value_of(v, v[i].0@);
    assert forall|j: int| 0 <= j < v.len() && (#[trigger] v[j]).0@ == v[i].0@ implies j == i by {
        text::lemma_precedes_irreflexive(v[i].0@);
    }
}

/// Law: two keyed lists that say the same of every name are the same list,
/// name by name and value by value.
pub proof fn law_a_keyed_list_is_a_map<V>(a: Seq<(String, V)>, b: Seq<(String, V)>)
    requires
        keyed(a),
        keyed(b),
    ensures
        say_the_same(a, b) <==> same_list(a, b),
{
    if say_the_same(a, b) {
        lemma_same_list(a, b);
    }
    if same_list(a, b) {
        assert forall|name: Seq<char>| #[trigger] value_of(a, name) == value_of(b, name) by {
            lemma_value_of(a, name);
            lemma_value_of(b, name);
            if value_of(a, name) is Some {
                let i = choose|i: int|
                    0 <= i < a.len() && (#[trigger] a[i]).0@ == name && a[i].1 == value_of(
                        a,
                        name,
                    ).unwrap();
                lemma_value_at(b, i);
            } else if value_of(b, name) is Some {
                let i = choose|i: int|
                    0 <= i < b.len() && (#[trigger] b[i]).0@ == name && b[i].1 == value_of(
                        b,
                        name,
                    ).unwrap();
                assert(a[i].0@ == name);
            }
        }
    }
}

proof fn lemma_same_list<V>(a: Seq<(String, V)>, b: Seq<(String, V)>)
    requires
        keyed(a),
        keyed(b),
        say_the_same(a, b),
    ensures
        same_list(a, b),
    decreases a.len(),
{
    if a.len() == 0 {
        if b.len() > 0 {
            assert(value_of(a, b.last().0@) == value_of(b, b.last().0@));
        }
    } else {
        let top = a.last().0@;
        assert(value_of(a, top) == value_of(b, top));
        assert(b.len() > 0);
        let peak = b.last().0@;
        assert(value_of(a, peak) == value_of(b, peak));
        lemma_value_of(b, top);
        lemma_value_of(a, peak);
        text::lemma_precedes_total(top, peak);
        assert(top == peak) by {
            let i = choose|i: int|
                0 <= i < b.len() && (#[trigger] b[i]).0@ == top && b[i].1 == value_of(
                    b,
                    top,
                ).unwrap();
            let j = choose|j: int|
                0 <= j < a.len() && (#[trigger] a[j]).0@ == peak && a[j].1 == value_of(
                    a,
                    peak,
                ).unwrap();
            assert(i < b.len() - 1 ==> text::precedes(b[i].0@, b[b.len() - 1].0@));
            assert(j < a.len() - 1 ==> text::precedes(a[j].0@, a[a.len() - 1].0@));
        }
        let (x, y) = (a.drop_last(), b.drop_last());
        assert forall|name: Seq<char>| #[trigger] value_of(x, name) == value_of(y, name) by {
            assert(value_of(a, name) == value_of(b, name));
            if name == top {
                lemma_value_of(x, name);
                lemma_value_of(y, name);
                text::lemma_precedes_irreflexive(top);
                assert forall|i: int| 0 <= i < x.len() implies (#[trigger] x[i]).0@ != name by {
                    assert(text::precedes(a[i].0@, a[a.len() - 1].0@));
                }
                assert forall|i: int| 0 <= i < y.len() implies (#[trigger] y[i]).0@ != name by {
                    assert(text::precedes(b[i].0@, b[b.len() - 1].0@));
                }
            }
        }
        lemma_same_list(x, y);
        assert forall|i: int| 0 <= i < a.len() implies (#[trigger] a[i]).0@ == (
        #[trigger] b[i]).0@ && a[i].1 == b[i].1 by {
            if i < x.len() {
                assert(x[i] == a[i] && y[i] == b[i]);
            }
        }
    }
}

/// Gives a name a value, in its place.
pub fn put<V>(list: &mut Vec<(String, V)>, name: String, value: V)
    requires
        keyed(old(list)@),
    ensures
        keyed(final(list)@),
        forall|k: Seq<char>| #[trigger]
            value_of(final(list)@, k) == (if k == name@ {
                Some(value)
            } else {
                value_of(old(list)@, k)
            }),
{
    let ghost was = list@;
    let mut i: usize = 0;
    while i < list.len() && text::before(&list[i].0, &name)
        invariant
            list@ == was,
            i <= list.len(),
            forall|j: int| 0 <= j < i ==> text::precedes((#[trigger] was[j]).0@, name@),
        decreases list.len() - i,
    {
        i += 1;
    }
    let taken = i < list.len() && text::same(&list[i].0, &name);
    if taken {
        list.remove(i);
    }
    let ghost key = name@;
    list.insert(i, (name, value));
    proof {
        let now = list@;
        text::lemma_precedes_irreflexive(key);
        if taken {
            assert(now =~= was.update(i as int, now[i as int]));
        } else {
            assert(now =~= was.insert(i as int, now[i as int]));
            if i < was.len() {
                text::lemma_precedes_total(was[i as int].0@, key);
            }
        }
        let after: int = if taken {
            i + 1
        } else {
            i as int
        };
        assert forall|j: int| after <= j < was.len() implies text::precedes(
            key,
            (#[trigger] was[j]).0@,
        ) by {
            if j > i {
                assert(text::precedes(was[i as int].0@, was[j].0@));
                if !taken {
                    text::lemma_precedes_transitive(key, was[i as int].0@, was[j].0@);
                }
            }
        }
        assert forall|a: int, b: int| 0 <= a < b < now.len() implies text::precedes(
            (#[trigger] now[a]).0@,
            (#[trigger] now[b]).0@,
        ) by {
            let gap: int = if taken {
                0
            } else {
                1
            };
            let x = if a > i {
                a - gap
            } else {
                a
            };
            let y = if b > i {
                b - gap
            } else {
                b
            };
            if a != i {
                assert(now[a] == was[x]);
            }
            if b != i {
                assert(now[b] == was[y]);
            }
        }
        assert forall|k: Seq<char>| #[trigger] value_of(now, k) == (if k == key {
            Some(value)
        } else {
            value_of(was, k)
        }) by {
            lemma_put(was, now, i as int, taken, k);
        }
    }
}

proof fn lemma_put<V>(
    was: Seq<(String, V)>,
    now: Seq<(String, V)>,
    i: int,
    taken: bool,
    k: Seq<char>,
)
    requires
        keyed(was),
        keyed(now),
        0 <= i <= was.len(),
        i < now.len(),
        taken ==> i < was.len() && was[i].0@ == now[i].0@ && now == was.update(i, now[i]),
        !taken ==> now == was.insert(i, now[i]),
    ensures
        value_of(now, k) == (if k == now[i].0@ {
            Some(now[i].1)
        } else {
            value_of(was, k)
        }),
{
    lemma_value_of(now, k);
    lemma_value_of(was, k);
    if k == now[i].0@ {
        lemma_value_at(now, i);
    } else if value_of(was, k) is Some {
        let j = choose|j: int|
            0 <= j < was.len() && (#[trigger] was[j]).0@ == k && was[j].1 == value_of(
                was,
                k,
            ).unwrap();
        let m = if taken || j < i {
            j
        } else {
            j + 1
        };
        assert(now[m] == was[j]);
        lemma_value_at(now, m);
    } else if value_of(now, k) is Some {
        let m = choose|m: int|
            0 <= m < now.len() && (#[trigger] now[m]).0@ == k && now[m].1 == value_of(
                now,
                k,
            ).unwrap();
        let j = if taken || m < i {
            m
        } else {
            m - 1
        };
        assert(now[m] == was[j]);
    }
}

/// The keyed list of some pairs, which may come in any order and name a thing
/// twice: it says of every name what the pairs say.
pub fn keyed_by<V>(pairs: Vec<(String, V)>) -> (r: Vec<(String, V)>)
    ensures
        keyed(r@),
        say_the_same(r@, pairs@),
{
    let ghost all = pairs@;
    let mut rest = pairs;
    let mut out: Vec<(String, V)> = Vec::new();
    let ghost mut n: int = 0;
    assert(rest@ =~= all.subrange(0, all.len() as int));
    while rest.len() > 0
        invariant
            0 <= n <= all.len(),
            rest@ == all.subrange(n, all.len() as int),
            keyed(out@),
            say_the_same(out@, all.subrange(0, n)),
        decreases rest.len(),
    {
        let ghost was = out@;
        let (name, value) = rest.remove(0);
        let ghost next = all.subrange(0, n + 1);
        assert(next.drop_last() =~= all.subrange(0, n));
        assert(next.last() == (name, value));
        assert(rest@ =~= all.subrange(n + 1, all.len() as int));
        put(&mut out, name, value);
        proof {
            assert forall|k: Seq<char>| #[trigger] value_of(out@, k) == value_of(next, k) by {
                assert(value_of(was, k) == value_of(all.subrange(0, n), k));
            }
            n = n + 1;
        }
    }
    assert(all.subrange(0, n) =~= all);
    out
}

/// A list of strings by name, as text.
pub open spec fn texts(v: Seq<(String, String)>) -> Seq<(String, Seq<char>)> {
    v.map_values(|p: (String, String)| (p.0, p.1@))
}

/// Law: two keyed lists of strings hold the same text under every name exactly
/// when they are the same, name by name and text by text.
pub proof fn law_keyed_texts_are_a_map(a: Seq<(String, String)>, b: Seq<(String, String)>)
    requires
        keyed(a),
        keyed(b),
    ensures
        say_the_same(texts(a), texts(b)) <==> (a.len() == b.len() && forall|i: int|
            0 <= i < a.len() ==> (#[trigger] a[i]).0@ == (#[trigger] b[i]).0@ && a[i].1@
                == b[i].1@),
{
    let (x, y) = (texts(a), texts(b));
    assert forall|i: int, j: int| 0 <= i < j < x.len() implies text::precedes(
        (#[trigger] x[i]).0@,
        (#[trigger] x[j]).0@,
    ) by {
        assert(x[i].0 == a[i].0 && x[j].0 == a[j].0);
    }
    assert forall|i: int, j: int| 0 <= i < j < y.len() implies text::precedes(
        (#[trigger] y[i]).0@,
        (#[trigger] y[j]).0@,
    ) by {
        assert(y[i].0 == b[i].0 && y[j].0 == b[j].0);
    }
    law_a_keyed_list_is_a_map(x, y);
    if same_list(x, y) {
        assert forall|i: int| 0 <= i < a.len() implies (#[trigger] a[i]).0@ == (
        #[trigger] b[i]).0@ && a[i].1@ == b[i].1@ by {
            assert(x[i] == (a[i].0, a[i].1@) && y[i] == (b[i].0, b[i].1@));
        }
    }
}

} // verus!
