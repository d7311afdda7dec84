//! Names that other machines give themselves.
use crate::bench::config::{control, is_control};
use crate::bench::host::{is_printable, law_a_note_is_kept, printable};
use crate::text;
use vstd::prelude::*;

verus! {

/// The longest name that is shown, in characters.
pub const MAX_NAME: usize = 63;

/// A name as it is shown: no control characters, and not too long. It came
/// from another machine, and must not be able to rewrite what a reader sees.
pub open spec fn shown(s: Seq<char>) -> Seq<char> {
    let p = printable(s);
    if p.len() <= MAX_NAME {
        p
    } else {
        p.subrange(0, MAX_NAME as int)
    }
}

/// A name as it is shown.
pub fn display_name(s: &str) -> (r: String)
    ensures
        r@ == shown(s@),
{
    let v = text::to_chars(s);
    let mut out: Vec<char> = Vec::new();
    let mut i: usize = 0;
    assert(v@.subrange(0, 0) =~= Seq::empty());
    while i < v.len()
        invariant
            i <= v.len(),
            out@ == printable(v@.subrange(0, i as int)),
        decreases v.len() - i,
    {
        let ghost next = v@.subrange(0, i + 1);
        assert(next.drop_last() =~= v@.subrange(0, i as int));
        assert(next.last() == v@[i as int]);
        if !control(v[i]) {
            out.push(v[i]);
        }
        i += 1;
    }
    assert(v@.subrange(0, v@.len() as int) =~= v@);
    if out.len() <= MAX_NAME {
        assert(out@.subrange(0, out@.len() as int) =~= out@);
        text::from_range(&out, 0, out.len())
    } else {
        text::from_range(&out, 0, MAX_NAME)
    }
}

proof fn lemma_printable(s: Seq<char>)
    ensures
        forall|i: int| 0 <= i < printable(s).len() ==> !is_control(#[trigger] printable(s)[i]),
    decreases s.len(),
{
    if s.len() > 0 {
        let q = printable(s.drop_last());
        lemma_printable(s.drop_last());
        assert forall|i: int| 0 <= i < printable(s).len() implies !is_control(
            #[trigger] printable(s)[i],
        ) by {
            if i < q.len() {
                assert(printable(s)[i] == q[i]);
            }
        }
    }
}

/// Law: a name that is shown holds no control character, and is bounded,
/// whatever the other machine sent.
pub proof fn law_a_shown_name_is_harmless(s: Seq<char>, i: int)
    requires
        0 <= i < shown(s).len(),
    ensures
        shown(s).len() <= MAX_NAME,
        !is_control(shown(s)[i]),
{
    lemma_printable(s);
}

/// Law: a name is shown as it is, but for its control characters, as far as it
/// fits in 63 characters.
pub proof fn law_a_name_is_shown_as_far_as_it_fits(s: Seq<char>)
    ensures
        shown(s).len() <= 63,
        shown(s) == s.filter(is_printable()).subrange(0, shown(s).len() as int),
        shown(s).len() < 63 ==> shown(s) == s.filter(is_printable()),
{
    law_a_note_is_kept(s);
    let p = printable(s);
    assert(p.subrange(0, p.len() as int) =~= p);
}

} // verus!
