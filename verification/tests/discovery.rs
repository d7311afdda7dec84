use metralectl_agent::discovery::{manual_target, Beacon};
use metralectl_agent::name::display_name;
use metralectl_agent::node::NodeId;

fn fp(byte: u8) -> NodeId {
    NodeId::from_bytes([byte; 32])
}

#[test]
fn a_beacon_round_trips_through_its_txt_record() {
    let b = Beacon {
        id: fp(0xa3),
        name: "spark-256a".to_owned(),
        peer_port: 34334,
        addresses: vec!["10.10.10.9".to_owned()],
        can_launch: true,
        accelerator: "GB10".to_owned(),
    };
    let props = b.txt_properties();
    let back = Beacon::from_txt(&props, b.addresses.clone(), b.peer_port).expect("parses");
    assert_eq!(back, b);
}

#[test]
fn a_beacon_carries_no_version_no_inventory_and_not_the_browser_port() {
    // Everything published here is unauthenticated and visible to the whole
    // network, forever. A version string would let someone scan for a known
    // vulnerable release; the browser port is loopback-only and has no business
    // being advertised at all.
    let b = Beacon {
        id: fp(1),
        name: "spark-256a".to_owned(),
        peer_port: 34334,
        addresses: vec![],
        can_launch: true,
        accelerator: "GB10".to_owned(),
    };
    let keys: Vec<String> = b.txt_properties().into_iter().map(|(k, _)| k).collect();
    assert_eq!(keys, ["id", "name", "cl", "gpu"]);

    let flat = format!("{:?}", b.txt_properties());
    assert!(
        !flat.contains("34333"),
        "the browser control port must never be advertised"
    );
    assert!(
        !flat.contains("0.1.3"),
        "no version in a beacon"
    );
}

#[test]
fn a_record_without_a_usable_fingerprint_is_ignored_not_an_error() {
    // Malformed records are ambient noise on a shared network.
    let addrs = vec!["10.0.0.1".to_owned()];
    assert!(Beacon::from_txt(&[], addrs.clone(), 34334).is_none());
    assert!(
        Beacon::from_txt(
            &[("id".to_owned(), "not-a-fingerprint".to_owned())],
            addrs.clone(),
            34334
        )
        .is_none()
    );
    // Right shape, wrong alphabet.
    assert!(Beacon::from_txt(&[("id".to_owned(), "z".repeat(64))], addrs, 34334).is_none());
}

#[test]
fn hostile_strings_in_a_beacon_are_sanitised_before_anything_renders_them() {
    let props = vec![
        ("id".to_owned(), fp(2).to_hex()),
        ("name".to_owned(), "\u{1b}[31mspark\u{0}\n".to_owned()),
        ("gpu".to_owned(), "A".repeat(500)),
    ];
    let b = Beacon::from_txt(&props, vec![], 34334).expect("parses");
    assert!(!b.name.contains('\u{1b}'));
    assert!(!b.name.contains('\u{0}'));
    assert!(
        b.accelerator.len() <= 63,
        "an unbounded field would be a UI denial of service"
    );
}

#[test]
fn can_launch_defaults_to_false_when_the_beacon_does_not_say() {
    // A claim that is absent must not read as a capability.
    let props = vec![("id".to_owned(), fp(3).to_hex())];
    let b = Beacon::from_txt(&props, vec![], 34334).expect("parses");
    assert!(!b.can_launch);
}

/// The TXT record is an unauthenticated broadcast. It deliberately carries no
/// operating system, no agent version and no recipe inventory: those are a
/// shopping list for anyone listening, and none of them is needed to draw a
/// grey node on a graph.
#[test]
fn the_beacon_advertises_nothing_a_stranger_could_shop_from() {
    let b = Beacon {
        id: NodeId::from_bytes([1; 32]),
        name: "spark-256a".to_owned(),
        peer_port: 34334,
        addresses: Vec::new(),
        can_launch: true,
        accelerator: "GB10".to_owned(),
    };
    let txt = b.txt_properties();
    let keys: Vec<&str> = txt.iter().map(|(k, _)| k.as_str()).collect();
    for forbidden in ["os", "version", "agent_version", "recipes", "browser_port"] {
        assert!(
            !keys.contains(&forbidden),
            "the beacon must not carry {forbidden}: {keys:?}"
        );
    }
}

/// An IPv6 literal is nothing but colons, so "does it already carry a port"
/// cannot be answered by looking for one. This is reached from the manual
/// address box and a hand-typed `peer add` — exactly where someone types an
/// address rather than a name.
#[test]
fn an_ipv6_literal_gets_the_default_port_rather_than_being_torn_at_a_colon() {
    let bare = manual_target("::1", 34334).expect("a bare literal must resolve");
    assert_eq!(bare.port, 34334, "the default port must be applied");
    assert_eq!(bare.ip, "::1");

    let bracketed = manual_target("[::1]", 34334).expect("brackets without a port must resolve");
    assert_eq!(bracketed.port, 34334);

    // And a bracketed literal that DOES name a port keeps it.
    let with = manual_target("[::1]:9999", 34334).expect("resolves");
    assert_eq!(with.port, 9999);
}

/// Whitespace survives a copy out of a browser or a chat window.
#[test]
fn a_pasted_address_with_spaces_around_it_still_resolves() {
    let a = manual_target("  127.0.0.1  ", 34334).expect("resolves");
    assert_eq!(a.port, 34334);
}

/// What is typed with a port keeps it; what is typed without gets the default.
#[test]
fn a_manually_typed_peer_resolves_with_and_without_a_port() {
    let with = manual_target("127.0.0.1:9999", 34334).expect("an address");
    assert_eq!((with.ip.as_str(), with.port), ("127.0.0.1", 9999));
    let without = manual_target("127.0.0.1", 34334).expect("an address");
    assert_eq!((without.ip.as_str(), without.port), ("127.0.0.1", 34334));
    let name = manual_target("spark-256a.local", 34334).expect("a name");
    assert_eq!((name.ip.as_str(), name.port), ("spark-256a.local", 34334));
}

/// A port that is none is refused rather than guessed at.
#[test]
fn a_port_that_is_none_is_refused() {
    for bad in ["host:", "host:x", "host:65536", "[::1]x", "[::1]:", "[::1"] {
        assert!(manual_target(bad, 34334).is_none(), "{bad}");
    }
}

/// The record's name on the network, and its host.
#[test]
fn a_record_is_named_by_half_a_fingerprint() {
    let b = Beacon {
        id: fp(0xa3),
        name: "spark-256a".to_owned(),
        peer_port: 34334,
        addresses: Vec::new(),
        can_launch: false,
        accelerator: String::new(),
    };
    assert_eq!(b.instance(), "metrale-a3a3a3a3a3a3a3a3");
    assert_eq!(b.host(), "metrale-a3a3a3a3a3a3a3a3.local.");
    assert_eq!(b.txt_properties()[2].1, "0");
}

/// A shown name has no control characters and at most 63 of the others.
#[test]
fn a_shown_name_is_cleaned_and_cut() {
    assert_eq!(display_name("\u{1b}[31mspark\u{0}\n"), "[31mspark");
    assert_eq!(display_name(&"A".repeat(500)), "A".repeat(63));
    assert_eq!(display_name("spark-256a"), "spark-256a");
}
