//! The code that two machines pair with.
use crate::text;
use vstd::prelude::*;

verus! {

/// How many digits a pairing code has.
pub const CODE_DIGITS: usize = 8;

/// How many times one code may be tried.
pub const MAX_ATTEMPTS: u8 = 3;

/// Whether the characters could be a pairing code: the digits, and nothing
/// else.
pub open spec fn is_code(s: Seq<char>) -> bool {
    s.len() == CODE_DIGITS && text::all_digits(s)
}

/// Whether a string could be a pairing code at all.
pub fn looks_like_code(s: &str) -> (r: bool)
    ensures
        r == is_code(s@),
{
    let v = text::to_chars(s);
    if v.len() != CODE_DIGITS {
        return false;
    }
    let mut i: usize = 0;
    while i < v.len()
        invariant
            i <= v.len(),
            v@ == s@,
            forall|k: int| 0 <= k < i ==> text::is_digit(#[trigger] s@[k]),
        decreases v.len() - i,
    {
        if v[i] < '0' || v[i] > '9' {
            return false;
        }
        i += 1;
    }
    true
}

/// The last `n` decimal digits of a number, zeros in front.
pub open spec fn padded(v: nat, n: nat) -> Seq<char>
    decreases n,
{
    if n == 0 {
        Seq::empty()
    } else {
        padded(v / 10, (n - 1) as nat).push(text::digit(v % 10))
    }
}

proof fn lemma_padded(v: nat, n: nat)
    ensures
        padded(v, n).len() == n,
        text::all_digits(padded(v, n)),
    decreases n,
{
    if n > 0 {
        lemma_padded(v / 10, (n - 1) as nat);
    }
}

/// A code of so many decimal digits. It is shown to a person and typed or
/// pasted on another machine.
#[derive(Debug)]
pub struct PairingCode {
    digits: String,
}

impl PairingCode {
    #[verifier::type_invariant]
    spec fn valid(self) -> bool {
        is_code(self.digits@)
    }

    /// The digits.
    pub closed spec fn chars(self) -> Seq<char> {
        self.digits@
    }

    /// The code that a random draw stands for: its last digits.
    pub fn generate(draw: u64) -> (r: Self)
        ensures
            r.chars() == padded(draw as nat, CODE_DIGITS as nat),
            is_code(r.chars()),
    {
        let mut rest: u64 = draw;
        let mut digits: Vec<char> = Vec::new();
        let mut i: usize = 0;
        while i < CODE_DIGITS
            invariant
                i <= CODE_DIGITS,
                padded(draw as nat, CODE_DIGITS as nat) == padded(
                    rest as nat,
                    (CODE_DIGITS - i) as nat,
                ) + digits@,
            decreases CODE_DIGITS - i,
        {
            let ghost was = digits@;
            let d = digit_of(rest % 10);
            digits.insert(0, d);
            assert(padded(rest as nat, (CODE_DIGITS - i) as nat) + was =~= padded(
                (rest / 10) as nat,
                (CODE_DIGITS - i - 1) as nat,
            ) + digits@);
            rest = rest / 10;
            i += 1;
        }
        let text = text::from_range(&digits, 0, digits.len());
        assert(padded(rest as nat, 0) + digits@ =~= digits@);
        assert(digits@.subrange(0, digits@.len() as int) =~= digits@);
        proof {
            lemma_padded(draw as nat, CODE_DIGITS as nat);
        }
        PairingCode { digits: text }
    }

    /// The digits, as text.
    pub fn as_str(&self) -> (r: &str)
        ensures
            r@ == self.chars(),
            is_code(r@),
    {
        proof {
            use_type_invariant(self);
        }
        self.digits.as_str()
    }
}

fn digit_of(d: u64) -> (c: char)
    requires
        d < 10,
    ensures
        c == text::digit(d as nat),
{
    match d {
        0 => '0',
        1 => '1',
        2 => '2',
        3 => '3',
        4 => '4',
        5 => '5',
        6 => '6',
        7 => '7',
        8 => '8',
        _ => '9',
    }
}

/// Law: a code is the number that was drawn, written in eight digits with
/// zeros in front.
pub proof fn law_a_code_is_the_number_drawn(v: nat)
    requires
        v < 100_000_000,
    ensures
        is_code(padded(v, 8)),
        padded(v, 8).len() == 8,
        text::all_digits(padded(v, 8)),
        text::value(padded(v, 8)) == v,
{
    lemma_padded(v, 8);
    let v1: nat = v / 10;
    let v2: nat = v1 / 10;
    let v3: nat = v2 / 10;
    let v4: nat = v3 / 10;
    let v5: nat = v4 / 10;
    let v6: nat = v5 / 10;
    let v7: nat = v6 / 10;
    assert(v7 < 10);
    assert(padded(v7 / 10, 0) =~= Seq::empty());
    assert(text::value(padded(v7 / 10, 0)) == 0);
    lemma_padded_step(v7, 1);
    lemma_padded_step(v6, 2);
    lemma_padded_step(v5, 3);
    lemma_padded_step(v4, 4);
    lemma_padded_step(v3, 5);
    lemma_padded_step(v2, 6);
    lemma_padded_step(v1, 7);
    lemma_padded_step(v, 8);
}

proof fn lemma_padded_step(v: nat, n: nat)
    requires
        n > 0,
    ensures
        text::value(padded(v, n)) == text::value(padded(v / 10, (n - 1) as nat)) * 10 + v % 10,
{
    let s = padded(v, n);
    assert(s.drop_last() =~= padded(v / 10, (n - 1) as nat));
    assert(s.last() == text::digit(v % 10));
}

} // verus!
