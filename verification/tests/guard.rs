use metralectl_agent::guard::{check, Refusal};

const PORT: u16 = 34333;

fn ok(origin: &str) -> Result<(), Refusal> {
    check(
        Some(origin),
        Some(&format!("127.0.0.1:{PORT}")),
        PORT,
        false,
    )
}

#[test]
fn the_real_site_is_allowed() {
    assert!(ok("https://metrale.ai").is_ok());
}

#[test]
fn a_retired_origin_is_refused() {
    // dev.metrale.ai now only redirects to metrale.ai, so no page there
    // should be driving this agent.
    assert_eq!(
        ok("https://dev.metrale.ai"),
        Err(Refusal::ForeignOrigin("https://dev.metrale.ai".into()))
    );
}

#[test]
fn a_lookalike_origin_is_refused() {
    // Substring or prefix matching would accept every one of these.
    for evil in [
        "https://dev.metrale.ai.evil.com",
        "https://evil.com/dev.metrale.ai",
        "https://dev.metrale.ai.",
        "https://notdev.metrale.ai",
        "https://sub.dev.metrale.ai",
        "https://www.metrale.ai",
        "https://metrale.ai.evil.com",
    ] {
        assert!(ok(evil).is_err(), "{evil} must be refused");
    }
}

#[test]
fn the_scheme_and_port_must_match_exactly() {
    assert!(
        ok("http://metrale.ai").is_err(),
        "plain http is not our origin"
    );
    assert!(
        ok("https://metrale.ai:8443").is_err(),
        "a different port is a different origin"
    );
}

#[test]
fn a_missing_or_null_origin_is_refused() {
    assert_eq!(
        check(None, Some(&format!("127.0.0.1:{PORT}")), PORT, false),
        Err(Refusal::MissingOrigin)
    );
    // `null` is what a sandboxed iframe or a file:// page sends.
    assert!(ok("null").is_err());
}

#[test]
fn dns_rebinding_is_refused_on_the_host_header() {
    // The attacker's page keeps its own Origin *and* its own Host, so this
    // fails twice over; assert the Host check specifically.
    let r = check(
        Some("https://metrale.ai"),
        Some("attacker.com:34333"),
        PORT,
        false,
    );
    assert_eq!(r, Err(Refusal::ForeignHost("attacker.com:34333".into())));
}

#[test]
fn every_loopback_spelling_of_host_is_accepted() {
    for h in ["127.0.0.1:34333", "localhost:34333", "[::1]:34333"] {
        assert!(
            check(Some("https://metrale.ai"), Some(h), PORT, false).is_ok(),
            "{h} should be accepted"
        );
    }
}

#[test]
fn a_host_on_the_wrong_port_is_refused() {
    assert!(
        check(
            Some("https://metrale.ai"),
            Some("127.0.0.1:1234"),
            PORT,
            false
        )
        .is_err()
    );
}

#[test]
fn dev_origins_are_off_unless_asked_for() {
    let host = format!("127.0.0.1:{PORT}");
    assert!(check(Some("http://localhost:5173"), Some(&host), PORT, false).is_err());
    assert!(check(Some("http://localhost:5173"), Some(&host), PORT, true).is_ok());
    // Even with dev origins on, an unrelated origin stays refused.
    assert!(check(Some("https://evil.com"), Some(&host), PORT, true).is_err());
}

#[test]
fn a_missing_host_is_refused() {
    assert_eq!(
        check(Some("https://metrale.ai"), None, PORT, false),
        Err(Refusal::MissingHost)
    );
}
