//! Deciding whether a browser connection may proceed.
//!
//! A loopback port is reachable by every page the user visits: browsers permit
//! cross-origin WebSocket connections to `127.0.0.1`, and the handshake is not
//! subject to a CORS preflight. `Origin` is what tells the pages apart,
//! because browsers set that header from the page's true origin and page
//! script cannot alter it.
//!
//! Everything here is a function of the headers.
use crate::text;
use vstd::prelude::*;

verus! {

/// The origin allowed to drive this agent.
pub const ALLOWED_ORIGIN: &'static str = "https://metrale.ai";

/// The origins of the site.
pub open spec fn site_origin(origin: Seq<char>) -> bool {
    origin == ALLOWED_ORIGIN@
}

/// Additional origins for local development, enabled explicitly.
pub open spec fn dev_origin(origin: Seq<char>) -> bool {
    ||| origin == "http://localhost:5173"@
    ||| origin == "http://127.0.0.1:5173"@
    ||| origin == "http://localhost:4173"@
    ||| origin == "http://127.0.0.1:4173"@
}

/// Host values a loopback connection may legitimately carry.
pub open spec fn loopback_host(host: Seq<char>, port: u16) -> bool {
    ||| host == "127.0.0.1:"@ + text::dec(port as nat)
    ||| host == "localhost:"@ + text::dec(port as nat)
    ||| host == "[::1]:"@ + text::dec(port as nat)
}

/// Whether a host value names this loopback listener.
///
/// Rebinding a name changes what it resolves to, not what the browser puts in
/// `Host`, so a page served from elsewhere still sends its own name and is
/// refused here even if that name now points at 127.0.0.1.
fn host_allowed(host: &str, port: u16) -> (r: bool)
    ensures
        r == loopback_host(host@, port),
{
    let digits = text::decimal(port as u64);
    let v4 = text::cat2("127.0.0.1:", &digits);
    let name = text::cat2("localhost:", &digits);
    let v6 = text::cat2("[::1]:", &digits);
    text::same(host, &v4) || text::same(host, &name) || text::same(host, &v6)
}

/// An origin that may drive this agent.
pub open spec fn allowed_origin(origin: Seq<char>, allow_dev: bool) -> bool {
    site_origin(origin) || (allow_dev && dev_origin(origin))
}

fn origin_allowed(origin: &str, allow_dev: bool) -> (r: bool)
    ensures
        r == allowed_origin(origin@, allow_dev),
{
    text::same(origin, ALLOWED_ORIGIN) || (allow_dev && (text::same(
        origin,
        "http://localhost:5173",
    ) || text::same(origin, "http://127.0.0.1:5173") || text::same(origin, "http://localhost:4173")
        || text::same(origin, "http://127.0.0.1:4173")))
}

/// Why a connection was refused.
#[derive(Debug, Clone, PartialEq, Eq)]
pub enum Refusal {
    /// No `Origin` header at all.
    MissingOrigin,
    /// An origin outside the allowlist.
    ForeignOrigin(String),
    /// No `Host` header.
    MissingHost,
    /// A `Host` that is not this loopback listener.
    ForeignHost(String),
}

impl Refusal {
    /// What the person reading the log is told.
    pub open spec fn told(self) -> Seq<char> {
        match self {
            Refusal::MissingOrigin =>
                "no Origin header; refusing a connection whose origin cannot be established"@,
            Refusal::ForeignOrigin(o) => "origin `"@ + o@
                + "` is not allowed to drive this agent"@,
            Refusal::MissingHost => "no Host header"@,
            Refusal::ForeignHost(h) => "host `"@ + h@
                + "` is not this agent's loopback address (possible DNS rebinding)"@,
        }
    }

    /// What the person reading the log is told.
    pub fn message(&self) -> (r: String)
        ensures
            r@ == self.told(),
    {
        match self {
            Refusal::MissingOrigin => text::copy(
                "no Origin header; refusing a connection whose origin cannot be established",
            ),
            Refusal::ForeignOrigin(o) => text::cat3(
                "origin `",
                o,
                "` is not allowed to drive this agent",
            ),
            Refusal::MissingHost => text::copy("no Host header"),
            Refusal::ForeignHost(h) => text::cat3(
                "host `",
                h,
                "` is not this agent's loopback address (possible DNS rebinding)",
            ),
        }
    }
}

/// What the headers come to. The host is judged first.
pub open spec fn judged(
    origin: Option<&str>,
    host: Option<&str>,
    port: u16,
    allow_dev: bool,
    r: Result<(), Refusal>,
) -> bool {
    match host {
        None => r == Err::<(), Refusal>(Refusal::MissingHost),
        Some(h) => if !loopback_host(h@, port) {
            r matches Err(Refusal::ForeignHost(s)) && s@ == h@
        } else {
            match origin {
                None => r == Err::<(), Refusal>(Refusal::MissingOrigin),
                Some(o) => if allowed_origin(o@, allow_dev) {
                    r == Ok::<(), Refusal>(())
                } else {
                    r matches Err(Refusal::ForeignOrigin(s)) && s@ == o@
                },
            }
        },
    }
}

/// Decide whether a connection may upgrade.
///
/// Matching is exact equality: a prefix match would accept
/// `https://metrale.ai.example.com`, and a scheme-insensitive match plain
/// `http://metrale.ai`; neither is our origin. A missing `Origin` is refused
/// rather than trusted: browsers always send one for a WebSocket handshake.
pub fn check(origin: Option<&str>, host: Option<&str>, port: u16, allow_dev: bool) -> (r: Result<
    (),
    Refusal,
>)
    ensures
        judged(origin, host, port, allow_dev, r),
{
    let host = match host {
        Some(h) => h,
        None => return Err(Refusal::MissingHost),
    };
    if !host_allowed(host, port) {
        return Err(Refusal::ForeignHost(text::copy(host)));
    }
    let origin = match origin {
        Some(o) => o,
        None => return Err(Refusal::MissingOrigin),
    };
    if origin_allowed(origin, allow_dev) {
        Ok(())
    } else {
        Err(Refusal::ForeignOrigin(text::copy(origin)))
    }
}

/// Law: nothing but our own page, speaking to our own address, is let in.
/// Without the development origins the page's origin is the site's to the
/// letter, and the host is this listener's; all else is refused, and turning
/// the development origins on lets in those four and no other.
pub proof fn law_only_our_page_is_let_in(
    origin: Option<&str>,
    host: Option<&str>,
    port: u16,
    allow_dev: bool,
    r: Result<(), Refusal>,
)
    requires
        judged(origin, host, port, allow_dev, r),
    ensures
        r is Ok ==> origin is Some && host is Some && loopback_host(host.unwrap()@, port) && (
        origin.unwrap()@ == ALLOWED_ORIGIN@ || (allow_dev && dev_origin(origin.unwrap()@))),
        origin is None || host is None ==> r is Err,
{
}

/// Law: a connection is let in exactly where it names this listener as its
/// host and comes from the site, or, where that is allowed, from one of the
/// four development servers; and a refusal says what was wrong, the host
/// first.
pub proof fn law_a_connection_is_let_in_where_it_may(
    origin: &str,
    host: &str,
    port: u16,
    allow_dev: bool,
    r: Result<(), Refusal>,
)
    requires
        judged(Some(origin), Some(host), port, allow_dev, r),
    ensures
        ({
            let here = host@ == "127.0.0.1:"@ + text::dec(port as nat) || host@ == "localhost:"@
                + text::dec(port as nat) || host@ == "[::1]:"@ + text::dec(port as nat);
            let ours = origin@ == "https://metrale.ai"@ || (allow_dev && (origin@
                == "http://localhost:5173"@ || origin@ == "http://127.0.0.1:5173"@ || origin@
                == "http://localhost:4173"@ || origin@ == "http://127.0.0.1:4173"@));
            &&& r is Ok <==> here && ours
            &&& !here ==> (r matches Err(Refusal::ForeignHost(h)) && h@ == host@)
            &&& here && !ours ==> (r matches Err(Refusal::ForeignOrigin(o)) && o@ == origin@)
        }),
{
}

} // verus!
