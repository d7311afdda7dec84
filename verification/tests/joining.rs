use metralectl_agent::joining::{looks_like_code, Consumed, JoinWindow, JOIN_TTL};
use metralectl_agent::pairing::MAX_ATTEMPTS;

/// A moment, in milliseconds.
const NOW: u64 = 1_000_000;

/// Two draws of a code.
const DRAW: u64 = 12_345_678;
const OTHER_DRAW: u64 = 42;


#[test]
fn a_fresh_agent_is_not_accepting_anyone() {
    let mut w = JoinWindow::default();
    assert!(!w.is_open(NOW));
    assert!(w.begin_attempt(NOW).is_none());
    assert!(w.remaining(NOW).is_none());
}

#[test]
fn a_minted_code_is_eight_digits_and_opens_the_window() {
    let mut w = JoinWindow::default();
    let code = w.mint(false, DRAW, NOW);
    assert!(looks_like_code(&code), "{code}");
    assert!(w.is_open(NOW));
    assert_eq!(w.begin_attempt(NOW).as_deref(), Some(code.as_str()));
}

/// Single use. A code that worked must not work twice, or an invitation
/// becomes a standing one.
#[test]
fn using_the_window_closes_it() {
    let mut w = JoinWindow::default();
    w.mint(false, DRAW, NOW);
    assert!(
        w.consume().is_some(),
        "the first caller spends the invitation"
    );
    assert!(!w.is_open(NOW));
    assert!(w.begin_attempt(NOW).is_none());
}

/// The grant chosen at mint time is what consumption reports — the pin
/// write must not read it from a slot a later mint may have replaced.
#[test]
fn the_consumed_invitation_carries_the_grant_the_human_chose() {
    let mut w = JoinWindow::default();
    w.mint(true, DRAW, NOW);
    assert_eq!(
        w.consume(),
        Some(Consumed {
            allow_control: true
        })
    );

    w.mint(false, DRAW, NOW);
    assert_eq!(
        w.consume(),
        Some(Consumed {
            allow_control: false
        })
    );
}

/// Two ceremonies can complete against one code if they overlap. Only one
/// may be admitted, and `consume` is how the loser finds out.
#[test]
fn only_the_first_consumer_may_admit_a_machine() {
    let mut w = JoinWindow::default();
    w.mint(false, DRAW, NOW);
    assert!(w.consume().is_some(), "first ceremony wins the invitation");
    assert!(
        w.consume().is_none(),
        "the second must be told the invitation was already spent, or one \
         code admits two machines"
    );
}

/// 10^8 is only out of reach while the number of guesses is small.
#[test]
fn the_window_closes_after_the_attempt_limit() {
    let mut w = JoinWindow::default();
    w.mint(false, DRAW, NOW);
    for _ in 0..MAX_ATTEMPTS {
        let _ = w.begin_attempt(NOW);
    }
    assert!(!w.is_open(NOW), "a guessable window must close itself");
    assert!(w.begin_attempt(NOW).is_none());
}

/// But one fumble must not send the operator back to the browser.
#[test]
fn a_single_failure_leaves_the_window_open() {
    let mut w = JoinWindow::default();
    w.mint(false, DRAW, NOW);
    let _ = w.begin_attempt(NOW);
    assert!(w.is_open(NOW));
}

/// Minting again means the operator gave up on the last code; leaving both
/// alive would widen the window for nothing.
#[test]
fn minting_again_replaces_rather_than_adds() {
    let mut w = JoinWindow::default();
    let first = w.mint(false, DRAW, NOW);
    let second = w.mint(false, OTHER_DRAW, NOW);
    assert_ne!(first, second);
    assert_eq!(w.begin_attempt(NOW).as_deref(), Some(second.as_str()));
}

#[test]
fn revoking_closes_it() {
    let mut w = JoinWindow::default();
    w.mint(false, DRAW, NOW);
    w.revoke();
    assert!(!w.is_open(NOW));
}

/// The attempt counter belongs to the invitation, not the agent: a new
/// code starts with a full budget.
#[test]
fn a_new_code_gets_a_fresh_attempt_budget() {
    let mut w = JoinWindow::default();
    w.mint(false, DRAW, NOW);
    let _ = w.begin_attempt(NOW);
    let _ = w.begin_attempt(NOW);
    w.mint(false, DRAW, NOW);
    let _ = w.begin_attempt(NOW);
    let _ = w.begin_attempt(NOW);
    assert!(w.is_open(NOW), "the earlier failures must not carry over");
}

/// A ceremony that reserved the LAST permitted attempt must still be able
/// to win it.
#[test]
fn the_final_permitted_attempt_can_still_pair() {
    let mut w = JoinWindow::default();
    w.mint(false, DRAW, NOW);
    for _ in 0..(MAX_ATTEMPTS - 1) {
        assert!(
            w.begin_attempt(NOW).is_some(),
            "earlier attempts are permitted"
        );
    }
    assert!(
        w.begin_attempt(NOW).is_some(),
        "the last permitted attempt must still get the code"
    );
    assert!(
        w.consume().is_some(),
        "and succeeding on it must count as spending the invitation, not as \
         losing a race to another machine"
    );
}

/// A caller who arrives after the budget is spent must be refused without
/// evicting the ceremony that is still using the invitation.
#[test]
fn a_late_caller_cannot_evict_the_winner() {
    let mut w = JoinWindow::default();
    w.mint(false, DRAW, NOW);
    for _ in 0..MAX_ATTEMPTS {
        assert!(w.begin_attempt(NOW).is_some());
    }
    assert!(w.begin_attempt(NOW).is_none(), "over budget is refused");
    assert!(
        w.consume().is_some(),
        "the holder of the last reservation must still be able to spend it"
    );
}

/// `--join` resolves `joining::looks_like_code`; `peer add --code`
/// resolves `pairing::looks_like_code`. They are one function today. This
/// asserts AGREEMENT rather than identity, so re-introducing a second
/// implementation is fine right up until it disagrees — which is the only
/// moment that matters, and the one nobody would otherwise notice until a
/// machine could not join.
#[test]
fn both_names_for_the_code_shape_answer_the_same() {
    for s in [
        "12345678",  // the real shape
        "1234567",   // one short
        "123456789", // one long
        "",          // empty
        "1234567a",  // a stray letter
        "abcdefgh",  // no digits at all
        "12 345678", // whitespace
        "١٢٣٤٥٦٧٨",  // non-ASCII digits: 8 chars, 16 bytes
        "-2345678",  // a sign
        "+2345678",
        "12345678 ", // trailing space
    ] {
        assert_eq!(
            metralectl_agent::joining::looks_like_code(s),
            metralectl_agent::pairing::looks_like_code(s),
            "the two paths disagree about {s:?}"
        );
    }
}

/// An invitation lapses by itself, and says how long it has left.
#[test]
fn an_invitation_lapses_when_its_time_is_up() {
    let mut w = JoinWindow::default();
    w.mint(false, DRAW, NOW);
    assert_eq!(w.remaining(NOW), Some(JOIN_TTL));
    assert_eq!(w.remaining(NOW + 1_000), Some(JOIN_TTL - 1_000));
    assert!(w.is_open(NOW + JOIN_TTL - 1));
    assert!(!w.is_open(NOW + JOIN_TTL));
    assert_eq!(w.remaining(NOW + JOIN_TTL), Some(0));
    assert_eq!(w.remaining(NOW + JOIN_TTL + 1), None);
    assert!(w.begin_attempt(NOW + JOIN_TTL).is_none());
}

/// A small draw is padded to the full width.
#[test]
fn a_small_draw_is_padded_with_zeros() {
    let mut w = JoinWindow::default();
    assert_eq!(w.mint(true, 42, NOW), "00000042");
    assert_eq!(w.mint(true, 12_345_678, NOW), "12345678");
    assert_eq!(w.mint(true, 9_912_345_678, NOW), "12345678");
}
