//! The window in which this machine will accept a new member.
//!
//! The operator's machine mints a code, a person carries it in the command
//! pasted on the other machine, and the pairing ceremony runs against it. The
//! code then sits in a shell history, so the window is small and answers to
//! all three of:
//!
//!   * an expiry, so an abandoned invitation closes itself;
//!   * single use, so a code that worked cannot work twice;
//!   * an attempt limit, so it cannot be guessed inside its own lifetime.
//!
//! Times are readings of one monotonic clock, in milliseconds.
use crate::pairing::{is_code, PairingCode, MAX_ATTEMPTS};
use crate::text;
use vstd::prelude::*;

pub use crate::pairing::looks_like_code;

verus! {

/// How long a minted invitation stays open, in milliseconds: long enough to
/// walk to another machine and paste a command, short enough that a code left
/// in a scrollback stops mattering quickly.
pub const JOIN_TTL: u64 = 600_000;

/// An outstanding invitation, as a value.
#[verifier::ext_equal]
pub struct Invitation {
    pub code: Seq<char>,
    pub opened: u64,
    pub attempts: u8,
    pub allow_control: bool,
}

/// An outstanding invitation. Whether the machine that joins is granted the
/// controller right is recorded when the person decides, and read back when
/// the invitation is consumed.
#[derive(Debug)]
struct Pending {
    code: PairingCode,
    opened: u64,
    attempts: u8,
    allow_control: bool,
}

impl Pending {
    spec fn value(self) -> Invitation {
        Invitation {
            code: self.code.chars(),
            opened: self.opened,
            attempts: self.attempts,
            allow_control: self.allow_control,
        }
    }
}

/// How long an invitation has been out. A clock that reads earlier than the
/// opening has not advanced.
pub open spec fn age(i: Invitation, now: u64) -> int {
    if now >= i.opened {
        now - i.opened
    } else {
        0
    }
}

/// An unexpired invitation with attempts left.
pub open spec fn open_at(w: Option<Invitation>, now: u64) -> bool {
    w is Some && age(w.unwrap(), now) < JOIN_TTL && w.unwrap().attempts < MAX_ATTEMPTS
}

/// What an attempt leaves of the window. An expired invitation is cleared. An
/// exhausted one is refused without clearing: the ceremony that holds the
/// last reservation may still be running, and is entitled to finish.
pub open spec fn attempted(w: Option<Invitation>, now: u64) -> Option<Invitation> {
    match w {
        None => None,
        Some(i) => if age(i, now) >= JOIN_TTL {
            None
        } else if i.attempts >= MAX_ATTEMPTS {
            w
        } else {
            Some(Invitation { attempts: (i.attempts + 1) as u8, ..i })
        },
    }
}

/// This machine's join window. Closed unless a person has just opened it.
#[derive(Debug)]
pub struct JoinWindow {
    inner: Option<Pending>,
}

impl Default for JoinWindow {
    fn default() -> (r: Self)
        ensures
            r.invitation() is None,
    {
        JoinWindow { inner: None }
    }
}

impl JoinWindow {
    /// The invitation outstanding.
    pub closed spec fn invitation(&self) -> Option<Invitation> {
        match self.inner {
            Some(p) => Some(p.value()),
            None => None,
        }
    }

    /// Open a window, replacing any invitation already outstanding. Whoever
    /// asks again has decided the previous code is not going to be used.
    ///
    /// The code is the one that `draw`, a random number, stands for;
    /// `allow_control` grants the joining machine the controller right when
    /// its pin is written.
    pub fn mint(&mut self, allow_control: bool, draw: u64, now: u64) -> (code: String)
        ensures
            code@ == crate::pairing::padded(draw as nat, crate::pairing::CODE_DIGITS as nat),
            is_code(code@),
            final(self).invitation() == Some(
                (Invitation { code: code@, opened: now, attempts: 0, allow_control }),
            ),
    {
        let code = PairingCode::generate(draw);
        let digits = text::copy(code.as_str());
        self.inner = Some(Pending { code, opened: now, attempts: 0, allow_control });
        digits
    }

    /// Close the window without using it.
    pub fn revoke(&mut self)
        ensures
            final(self).invitation() is None,
    {
        self.inner = None;
    }

    /// Whether an unexpired invitation is outstanding. Exhausted counts as
    /// closed: strangers stop being admitted the moment the guesses run out.
    pub fn is_open(&self, now: u64) -> (r: bool)
        ensures
            r == open_at(self.invitation(), now),
    {
        match &self.inner {
            Some(p) => now.saturating_sub(p.opened) < JOIN_TTL && p.attempts < MAX_ATTEMPTS,
            None => false,
        }
    }

    /// How long the current invitation has left, if any.
    pub fn remaining(&self, now: u64) -> (r: Option<u64>)
        ensures
            match r {
                Some(left) => self.invitation() is Some && left == JOIN_TTL - age(
                    self.invitation().unwrap(),
                    now,
                ),
                None => self.invitation() is None || age(self.invitation().unwrap(), now)
                    > JOIN_TTL,
            },
    {
        match &self.inner {
            Some(p) => JOIN_TTL.checked_sub(now.saturating_sub(p.opened)),
            None => None,
        }
    }

    /// Reserve one attempt and return the code, or `None` if none remain.
    ///
    /// The attempt is charged before the ceremony begins, so the limit holds
    /// however many ceremonies run at once, and one that dies half way has
    /// spent its guess.
    pub fn begin_attempt(&mut self, now: u64) -> (r: Option<String>)
        ensures
            final(self).invitation() == attempted(old(self).invitation(), now),
            match r {
                Some(code) => open_at(old(self).invitation(), now) && code@ == old(
                    self,
                ).invitation().unwrap().code,
                None => !open_at(old(self).invitation(), now),
            },
    {
        let mut p = match self.inner.take() {
            Some(p) => p,
            None => return None,
        };
        if now.saturating_sub(p.opened) >= JOIN_TTL {
            return None;
        }
        if p.attempts >= MAX_ATTEMPTS {
            self.inner = Some(p);
            return None;
        }
        p.attempts = p.attempts + 1;
        let code = text::copy(p.code.as_str());
        self.inner = Some(p);
        Some(code)
    }

    /// Close the window because it was used, reporting what the spent
    /// invitation granted.
    ///
    /// `None` means that someone else already spent the invitation: a caller
    /// that has just completed a ceremony must then refuse the pairing.
    pub fn consume(&mut self) -> (r: Option<Consumed>)
        ensures
            final(self).invitation() is None,
            match r {
                Some(c) => old(self).invitation() is Some && c.allow_control == old(
                    self,
                ).invitation().unwrap().allow_control,
                None => old(self).invitation() is None,
            },
    {
        match self.inner.take() {
            Some(p) => Some(Consumed { allow_control: p.allow_control }),
            None => None,
        }
    }
}

/// What a spent invitation granted, read once at consumption.
#[derive(Debug, Clone, Copy, PartialEq, Eq, Structural)]
pub struct Consumed {
    /// Whether the joining machine's pin carries the controller right.
    pub allow_control: bool,
}

// ---------------------------------------------------------------------------
// Laws
// ---------------------------------------------------------------------------

/// What may be done with a window once its invitation is out.
pub enum Deed {
    Attempt { now: u64 },
    Consume,
    Revoke,
}

/// What a deed leaves of the window.
pub open spec fn after_deed(w: Option<Invitation>, d: Deed) -> Option<Invitation> {
    match d {
        Deed::Attempt { now } => attempted(w, now),
        Deed::Consume => None,
        Deed::Revoke => None,
    }
}

/// The window after the first `n` deeds.
pub open spec fn after(w: Option<Invitation>, deeds: Seq<Deed>, n: int) -> Option<Invitation>
    decreases n,
{
    if n <= 0 {
        w
    } else {
        after_deed(after(w, deeds, n - 1), deeds[n - 1])
    }
}

/// How many of the first `n` deeds were handed the code.
pub open spec fn handed_out(w: Option<Invitation>, deeds: Seq<Deed>, n: int) -> nat
    decreases n,
{
    if n <= 0 {
        0
    } else {
        let before = after(w, deeds, n - 1);
        handed_out(w, deeds, n - 1) + if deeds[n - 1] matches Deed::Attempt { now } && open_at(
            before,
            now,
        ) {
            1nat
        } else {
            0nat
        }
    }
}

/// How many of the first `n` deeds spent the invitation.
pub open spec fn admitted(w: Option<Invitation>, deeds: Seq<Deed>, n: int) -> nat
    decreases n,
{
    if n <= 0 {
        0
    } else {
        let before = after(w, deeds, n - 1);
        admitted(w, deeds, n - 1) + if deeds[n - 1] is Consume && before is Some {
            1nat
        } else {
            0nat
        }
    }
}

/// Law: one invitation is tried no more often than the limit allows, in
/// whatever order attempts, consumptions and revocations come.
pub proof fn law_the_attempts_are_limited(start: Invitation, deeds: Seq<Deed>)
    requires
        start.attempts == 0,
    ensures
        handed_out(Some(start), deeds, deeds.len() as int) <= MAX_ATTEMPTS,
{
    lemma_attempts(start, deeds, deeds.len() as int);
}

proof fn lemma_attempts(start: Invitation, deeds: Seq<Deed>, n: int)
    requires
        start.attempts == 0,
        0 <= n <= deeds.len(),
    ensures
        handed_out(Some(start), deeds, n) <= MAX_ATTEMPTS,
        after(Some(start), deeds, n) matches Some(i) ==> i.attempts == handed_out(
            Some(start),
            deeds,
            n,
        ),
    decreases n,
{
    if n > 0 {
        lemma_attempts(start, deeds, n - 1);
    }
}

/// Law: an invitation admits at most one machine, and whoever consumes it is
/// told the grant chosen when it was minted, however many attempts came
/// between.
pub proof fn law_an_invitation_admits_one_machine(start: Invitation, deeds: Seq<Deed>, n: int)
    requires
        0 <= n <= deeds.len(),
    ensures
        admitted(Some(start), deeds, deeds.len() as int) <= 1,
        after(Some(start), deeds, n) matches Some(i) ==> i.allow_control == start.allow_control
            && i.code == start.code,
{
    lemma_admitted(start, deeds, deeds.len() as int);
    lemma_admitted(start, deeds, n);
}

proof fn lemma_admitted(start: Invitation, deeds: Seq<Deed>, n: int)
    requires
        0 <= n <= deeds.len(),
    ensures
        admitted(Some(start), deeds, n) <= 1,
        admitted(Some(start), deeds, n) == 1 ==> after(Some(start), deeds, n) is None,
        after(Some(start), deeds, n) matches Some(i) ==> i.allow_control == start.allow_control
            && i.code == start.code,
    decreases n,
{
    if n > 0 {
        lemma_admitted(start, deeds, n - 1);
    }
}

/// Law: a caller who arrives once the attempts are spent changes nothing, so
/// the ceremony that holds the last one can still consume the invitation.
pub proof fn law_a_late_caller_changes_nothing(i: Invitation, now: u64)
    requires
        i.attempts >= MAX_ATTEMPTS,
        age(i, now) < JOIN_TTL,
    ensures
        attempted(Some(i), now) == Some(i),
        !open_at(Some(i), now),
{
}

/// Law: an invitation does not outlive its time. Once it has expired no
/// attempt is handed the code, and the first one made clears the window.
pub proof fn law_an_invitation_expires(w: Option<Invitation>, now: u64)
    requires
        w is Some ==> age(w.unwrap(), now) >= JOIN_TTL,
    ensures
        !open_at(w, now),
        attempted(w, now) is None,
{
}

/// Law: the code is handed out for ten minutes and three times, and each time
/// it is, one of the times is gone.
pub proof fn law_a_code_serves_three_times(i: Invitation, now: u64)
    ensures
        open_at(Some(i), now) <==> now < i.opened + 600_000 && i.attempts < 3,
        !open_at(None, now),
        open_at(Some(i), now) ==> (attempted(Some(i), now) matches Some(j) && j.attempts
            == i.attempts + 1 && j.code == i.code && j.opened == i.opened && j.allow_control
            == i.allow_control),
        now >= i.opened + 600_000 ==> attempted(Some(i), now) is None,
        attempted(None, now) is None,
{
}

} // verus!
