//! `medium`: the router's features and failure paths, end to end, each
//! checked against what it is documented to do:
//!
//! - its own answers: 400 without a Host, a 404 naming the host, `/healthz`
//!   on an unclaimed host, and its line endings;
//! - routing: `/healthz` on a claimed host is proxied, Host is matched
//!   case-insensitively with the port stripped, and a keep-alive connection
//!   stays on its first backend;
//! - the splice: a streamed response is not held back, an Upgrade becomes a
//!   two-way pipe, an 8 MiB body passes whole;
//! - failure paths: a request head past 16 KiB is cut off, a dead backend
//!   closes the connection with no response, a headless Service's route is
//!   skipped without taking the others down;
//! - the table: a route update moves the host, a backendRef resolves through
//!   its Service, fifty routes at once each reach their own backend under
//!   concurrent load, and deleted routes are 404s again;
//! - and the supervisor saw no restart or crash of the router throughout.

use crate::json::{self, Json, JsonTree};
use crate::router;
use crate::suite::api::Api;
use crate::suite::env;
use crate::suite::http::{self, Reply, Resp};
use crate::suite::probe::{self, Supervised};
use crate::suite::report::{Outcome, OutcomeView};
use crate::text;
use vstd::prelude::*;
use vstd::slice::slice_subrange;
use vstd::utf8::*;

verus! {

/// Hosts in `many-hosts`.
pub const MANY: usize = 50;

/// The size of the body that `large-body` sends.
pub const LARGE: usize = 8_388_608;

/// The size of the pieces that it is sent in.
pub const CHUNK: usize = 65_536;

/// How long a head `head-limit` sends at least.
pub const LONG_HEAD: usize = 17_408;

/// How long an echo may take, in nanoseconds.
pub const ECHO_WAIT: u128 = 5_000_000_000;

/// How long `head-limit` waits for the connection to be closed, in
/// nanoseconds.
pub const CLOSE_WAIT: u128 = 5_000_000_000;

/// How long a Service may take to be given an address, in nanoseconds.
pub const ADDRESS_WAIT: u128 = 10_000_000_000;

/// How long to sleep between two looks at a Service, in nanoseconds.
pub const ADDRESS_POLL: u128 = 500_000_000;

/// How long a Service may take to lead to its Endpoints, in nanoseconds.
pub const DIRECT_WAIT: u128 = 10_000_000_000;

/// The outcome of the half that does not run here.
pub fn vip_half() -> (r: Outcome)
    ensures
        r@ == OutcomeView::Skip(
            "not shipped: the stormcos golden runs [router] only. The L4 balancer, health checks, VRRP and BGP are covered by cargo test in sc-build (tests/balancer.rs and the unit tests)"@,
        ),
{
    Outcome::Skip(
        String::from_str(
            "not shipped: the stormcos golden runs [router] only. The L4 balancer, health checks, VRRP and BGP are covered by cargo test in sc-build (tests/balancer.rs and the unit tests)",
        ),
    )
}

/// A failure, told by what failed and why.
pub open spec fn failed_at(what: Seq<char>, why: Seq<char>) -> OutcomeView {
    OutcomeView::Fail(what + ": "@ + why)
}

/// A failure, told by what failed and why.
pub fn fail_io(what: &str, why: &str) -> (r: Outcome)
    ensures
        r@ == failed_at(what@, why@),
{
    Outcome::Fail(String::from_str(what).concat(": ").concat(why))
}

/// A response that should not have been.
pub open spec fn answered(r: Resp) -> OutcomeView {
    OutcomeView::Fail("answered "@ + probe::told(r))
}

/// A connection that was closed.
pub open spec fn closed() -> OutcomeView {
    OutcomeView::Fail("closed with no response"@)
}

fn fail_answered(r: &Resp) -> (o: Outcome)
    ensures
        o@ == answered(*r),
{
    Outcome::Fail(String::from_str("answered ").concat(probe::tell(r).as_str()))
}

fn fail_closed() -> (o: Outcome)
    ensures
        o@ == closed(),
{
    Outcome::Fail(String::from_str("closed with no response"))
}

fn fail(why: &str) -> (o: Outcome)
    ensures
        o@ == OutcomeView::Fail(why@),
{
    Outcome::Fail(String::from_str(why))
}

// ---------------------------------------------------------------------------
// The router's own answers
// ---------------------------------------------------------------------------

/// A request without a Host.
pub open spec fn no_host_text() -> Seq<char> {
    "GET / HTTP/1.0\r\n\r\n"@
}

/// A request without a Host.
pub fn no_host_request() -> (r: Vec<u8>)
    ensures
        r@ == encode_utf8(no_host_text()),
        r@ == encode_utf8("GET / HTTP/1.0\r\n\r\n"@),
{
    "GET / HTTP/1.0\r\n\r\n".as_bytes_vec()
}

/// What the answer to a request without a Host is worth.
pub open spec fn no_host_verdict(r: Reply) -> OutcomeView {
    match r {
        Reply::Answer(a) => if a.status == 400 {
            OutcomeView::Pass("400 "@ + text::quoted(text::trimmed(a.body_text())))
        } else {
            answered(a)
        },
        Reply::Closed => closed(),
        Reply::Failed(f) => OutcomeView::Fail(f.why@),
    }
}

/// A request without a Host is a 400.
pub fn no_host(reply: &Reply) -> (r: Outcome)
    ensures
        r@ == no_host_verdict(*reply),
{
    match reply {
        Reply::Answer(a) => if a.status == 400 {
            Outcome::Pass(
                String::from_str("400 ").concat(
                    text::quote(text::trim_text(a.text().as_str()).as_str()).as_str(),
                ),
            )
        } else {
            fail_answered(a)
        },
        Reply::Closed => fail_closed(),
        Reply::Failed(f) => fail(f.why.as_str()),
    }
}

/// What the answer for a host that no route claims is worth.
pub open spec fn unknown_host_verdict(host: Seq<char>, r: Reply) -> OutcomeView {
    match r {
        Reply::Answer(a) => if a.status == 404 && text::has(
            a.body_text(),
            "no route for host "@ + host,
        ) {
            OutcomeView::Pass("404 "@ + text::quoted(text::trimmed(a.body_text())))
        } else {
            answered(a)
        },
        Reply::Closed => closed(),
        Reply::Failed(f) => OutcomeView::Fail(f.why@),
    }
}

/// A host that no route claims is a 404 that names it.
pub fn unknown_host(host: &str, reply: &Reply) -> (r: Outcome)
    ensures
        r@ == unknown_host_verdict(host@, *reply),
{
    match reply {
        Reply::Answer(a) => if a.status == 404 && text::text_has(
            a.text().as_str(),
            String::from_str("no route for host ").concat(host).as_str(),
        ) {
            Outcome::Pass(
                String::from_str("404 ").concat(
                    text::quote(text::trim_text(a.text().as_str()).as_str()).as_str(),
                ),
            )
        } else {
            fail_answered(a)
        },
        Reply::Closed => fail_closed(),
        Reply::Failed(f) => fail(f.why.as_str()),
    }
}

/// What the line endings of the liveness answer are worth.
pub open spec fn healthz_crlf_verdict(r: Reply) -> OutcomeView {
    match r {
        Reply::Answer(a) => if a.crlf {
            OutcomeView::Pass("the head ends in CRLF CRLF"@)
        } else {
            OutcomeView::Fail(
                "the /healthz head uses bare LF line endings (stormlb#5): "@ + text::quoted(
                    a.head@,
                ),
            )
        },
        Reply::Closed => closed(),
        Reply::Failed(f) => OutcomeView::Fail(f.why@),
    }
}

/// HTTP/1.1 heads end in CRLF.
pub fn healthz_crlf(reply: &Reply) -> (r: Outcome)
    ensures
        r@ == healthz_crlf_verdict(*reply),
{
    match reply {
        Reply::Answer(a) => if a.crlf {
            Outcome::Pass(String::from_str("the head ends in CRLF CRLF"))
        } else {
            Outcome::Fail(
                String::from_str(
                    "the /healthz head uses bare LF line endings (stormlb#5): ",
                ).concat(text::quote(a.head.as_str()).as_str()),
            )
        },
        Reply::Closed => fail_closed(),
        Reply::Failed(f) => fail(f.why.as_str()),
    }
}

/// What two views of the supervisor are worth, one from the start and one
/// from the end.
pub open spec fn no_restarts_verdict(
    stormd: bool,
    before: Option<Result<Supervised, String>>,
    now: Result<Supervised, String>,
) -> OutcomeView {
    match before {
        Some(b) => if !stormd {
            OutcomeView::Skip("no stormd here (STORMLB_STORMD=none)"@)
        } else {
            match b {
                Err(e) => OutcomeView::Fail("stormd unreadable at the start: "@ + e@),
                Ok(b) => match now {
                    Ok(n) => if n.running && n.restarts == b.restarts && n.crashes == b.crashes {
                        OutcomeView::Pass(
                            "running throughout: "@ + text::decimal(n.restarts as nat)
                                + " restarts, "@ + text::decimal(n.crashes as nat)
                                + " crashes, unchanged"@,
                        )
                    } else {
                        OutcomeView::Fail(
                            "stormlb under stormd was "@ + b.shown() + " at the start and is "@
                                + n.shown() + " now"@,
                        )
                    },
                    Err(e) => OutcomeView::Fail(e@),
                },
            }
        },
        None => OutcomeView::Skip("no stormd here (STORMLB_STORMD=none)"@),
    }
}

/// The supervisor saw no restart or crash between the start and the end.
pub fn no_restarts(
    stormd: bool,
    before: &Option<Result<Supervised, String>>,
    now: &Result<Supervised, String>,
) -> (r: Outcome)
    ensures
        r@ == no_restarts_verdict(stormd, *before, *now),
{
    let first = match before {
        Some(b) => if stormd {
            b
        } else {
            return Outcome::Skip(String::from_str("no stormd here (STORMLB_STORMD=none)"));
        },
        None => {
            return Outcome::Skip(String::from_str("no stormd here (STORMLB_STORMD=none)"));
        },
    };
    let b = match first {
        Ok(b) => b,
        Err(e) => {
            return Outcome::Fail(
                String::from_str("stormd unreadable at the start: ").concat(e.as_str()),
            );
        },
    };
    match now {
        Ok(n) => if n.running && n.restarts == b.restarts && n.crashes == b.crashes {
            Outcome::Pass(
                String::from_str("running throughout: ").concat(
                    text::decimal_text(n.restarts as u128).as_str(),
                ).concat(" restarts, ").concat(
                    text::decimal_text(n.crashes as u128).as_str(),
                ).concat(" crashes, unchanged"),
            )
        } else {
            Outcome::Fail(
                String::from_str("stormlb under stormd was ").concat(b.show().as_str()).concat(
                    " at the start and is ",
                ).concat(n.show().as_str()).concat(" now"),
            )
        },
        Err(e) => fail(e.as_str()),
    }
}

// ---------------------------------------------------------------------------
// Routing
// ---------------------------------------------------------------------------

/// What two routes and how long both took to be served are worth.
pub open spec fn program_verdict(
    created: Result<(), String>,
    served: Result<u128, String>,
) -> OutcomeView {
    match created {
        Err(e) => OutcomeView::Infra("cannot create the HTTPRoute: "@ + e@),
        Ok(_) => match served {
            Err(e) => OutcomeView::Fail(e@),
            Ok(t) => OutcomeView::Pass(
                "two hosts on two backends, served after "@ + text::decimal(env::whole_millis(t))
                    + " ms"@,
            ),
        },
    }
}

/// Two hosts on two backends: `served` is how long both took to be served.
pub fn program(created: &Result<(), String>, served: &Result<u128, String>) -> (r: Outcome)
    ensures
        r@ == program_verdict(*created, *served),
        r@ == (match created {
            Err(e) => OutcomeView::Infra("cannot create the HTTPRoute: "@ + e@),
            Ok(_) => match served {
                Err(e) => OutcomeView::Fail(e@),
                Ok(t) => OutcomeView::Pass(
                    "two hosts on two backends, served after "@ + text::decimal(
                        env::whole_millis(*t),
                    ) + " ms"@,
                ),
            },
        }),
{
    match created {
        Err(e) => Outcome::Infra(
            String::from_str("cannot create the HTTPRoute: ").concat(e.as_str()),
        ),
        Ok(_) => match served {
            Err(e) => fail(e.as_str()),
            Ok(t) => Outcome::Pass(
                String::from_str("two hosts on two backends, served after ").concat(
                    env::millis_text(*t).as_str(),
                ).concat(" ms"),
            ),
        },
    }
}

/// What `/healthz` on a claimed host is worth.
pub open spec fn healthz_claimed_verdict(r: Reply) -> OutcomeView {
    match r {
        Reply::Answer(a) => if a.status == 200 && probe::is_from(a, "a"@) && text::has(
            a.body_text(),
            "path=/healthz"@,
        ) {
            OutcomeView::Pass("proxied to backend a"@)
        } else {
            OutcomeView::Fail("answered "@ + probe::told(a) + ", not backend a"@)
        },
        Reply::Closed => closed(),
        Reply::Failed(f) => failed_at("fetch"@, f.why@),
    }
}

/// `/healthz` on a claimed host is proxied.
pub fn healthz_claimed(reply: &Reply) -> (r: Outcome)
    ensures
        r@ == healthz_claimed_verdict(*reply),
{
    match reply {
        Reply::Answer(a) => if a.status == 200 && probe::from_backend(a, "a") && text::text_has(
            a.text().as_str(),
            "path=/healthz",
        ) {
            Outcome::Pass(String::from_str("proxied to backend a"))
        } else {
            Outcome::Fail(
                String::from_str("answered ").concat(probe::tell(a).as_str()).concat(
                    ", not backend a",
                ),
            )
        },
        Reply::Closed => fail_closed(),
        Reply::Failed(f) => fail_io("fetch", f.why.as_str()),
    }
}

/// A host in upper case, with a port.
pub open spec fn loud(host: Seq<char>) -> Seq<char> {
    text::uppered(host) + ":80"@
}

/// A host in upper case, with a port.
pub fn loud_host(host: &str) -> (r: String)
    ensures
        r@ == text::uppered(host@) + ":80"@,
        r@ == loud(host@),
{
    text::upper_text(host).concat(":80")
}

/// What the answer for a host in upper case, with a port, is worth.
pub open spec fn host_case_verdict(host: Seq<char>, r: Reply) -> OutcomeView {
    match r {
        Reply::Answer(a) => if probe::is_from(a, "a"@) {
            OutcomeView::Pass("Host "@ + text::quoted(host) + " reached backend a"@)
        } else {
            OutcomeView::Fail("Host "@ + text::quoted(host) + ": "@ + probe::told(a))
        },
        Reply::Closed => closed(),
        Reply::Failed(f) => failed_at("fetch"@, f.why@),
    }
}

/// Host is matched case-insensitively with the port stripped.
pub fn host_case_and_port(host: &str, reply: &Reply) -> (r: Outcome)
    ensures
        r@ == host_case_verdict(host@, *reply),
        r is Pass <==> (reply matches Reply::Answer(a) && http::field_of(
            text::lossy_text(a.body@),
            "backend"@,
        ) == Some("a"@)),
{
    match reply {
        Reply::Answer(a) => {
            let h = String::from_str("Host ").concat(text::quote(host).as_str());
            if probe::from_backend(a, "a") {
                Outcome::Pass(h.concat(" reached backend a"))
            } else {
                Outcome::Fail(h.concat(": ").concat(probe::tell(a).as_str()))
            }
        },
        Reply::Closed => fail_closed(),
        Reply::Failed(f) => fail_io("fetch", f.why.as_str()),
    }
}

/// A request that keeps the connection.
pub open spec fn sticky_text(path: Seq<char>, host: Seq<char>) -> Seq<char> {
    "GET "@ + path + " HTTP/1.1\r\nHost: "@ + host + "\r\nUser-Agent: stormlb-test\r\n\r\n"@
}

/// A request that keeps the connection.
pub fn sticky_request(path: &str, host: &str) -> (r: Vec<u8>)
    ensures
        r@ == encode_utf8(sticky_text(path@, host@)),
        r@ == encode_utf8(
            "GET "@ + path@ + " HTTP/1.1\r\nHost: "@ + host@
                + "\r\nUser-Agent: stormlb-test\r\n\r\n"@,
        ),
{
    String::from_str("GET ").concat(path).concat(" HTTP/1.1\r\nHost: ").concat(host).concat(
        "\r\nUser-Agent: stormlb-test\r\n\r\n",
    ).as_str().as_bytes_vec()
}

/// A text, or nothing in its place.
pub open spec fn or_empty(s: Option<Seq<char>>) -> Seq<char> {
    match s {
        Some(t) => t,
        None => ""@,
    }
}

fn or_nothing(s: Option<String>) -> (r: String)
    ensures
        r@ == or_empty(text::opt_string(s)),
{
    match s {
        Some(t) => t,
        None => String::from_str(""),
    }
}

/// Which backend answered on a kept connection, and for which request of it;
/// the outcome, where none did.
pub open spec fn sticky_told(path: Seq<char>, r: Reply) -> Result<
    (Seq<char>, Seq<char>),
    OutcomeView,
> {
    match r {
        Reply::Answer(a) => Ok(
            (or_empty(a.backend_name()), or_empty(http::field_of(a.body_text(), "req"@))),
        ),
        Reply::Closed => Err(OutcomeView::Fail("closed before the response to "@ + path)),
        Reply::Failed(f) => Err(failed_at(path, f.why@)),
    }
}

/// Which backend answered on a kept connection, and for which request of it;
/// the outcome, where none did.
pub fn sticky_saw(path: &str, reply: &Reply) -> (r: Result<(String, String), Outcome>)
    ensures
        match r {
            Ok(s) => sticky_told(path@, *reply) == Ok::<(Seq<char>, Seq<char>), OutcomeView>(
                (s.0@, s.1@),
            ),
            Err(o) => sticky_told(path@, *reply) == Err::<(Seq<char>, Seq<char>), OutcomeView>(o@),
        },
        match r {
            Ok(s) => reply matches Reply::Answer(a) && s.0@ == or_empty(a.backend_name()) && s.1@
                == or_empty(http::field_of(a.body_text(), "req"@)),
            Err(o) => match reply {
                Reply::Answer(_) => false,
                Reply::Closed => o@ == OutcomeView::Fail(
                    "closed before the response to "@ + path@,
                ),
                Reply::Failed(f) => o@ == failed_at(path@, f.why@),
            },
        },
{
    match reply {
        Reply::Answer(a) => Ok(
            (or_nothing(a.backend()), or_nothing(http::field(a.text().as_str(), "req"))),
        ),
        Reply::Closed => Err(
            Outcome::Fail(String::from_str("closed before the response to ").concat(path)),
        ),
        Reply::Failed(f) => Err(fail_io(path, f.why.as_str())),
    }
}

/// A backend and a request number, as they are shown.
pub open spec fn pair_shown(a: Seq<char>, n: Seq<char>) -> Seq<char> {
    "("@ + text::quoted(a) + ", "@ + text::quoted(n) + ")"@
}

fn show_pair(a: &str, n: &str) -> (r: String)
    ensures
        r@ == pair_shown(a@, n@),
{
    String::from_str("(").concat(text::quote(a).as_str()).concat(", ").concat(
        text::quote(n).as_str(),
    ).concat(")")
}

/// What two requests on one connection are worth, for two hosts: each told by
/// the backend that answered and the number that it gave the request.
pub open spec fn sticky_verdict(
    a1: Seq<char>,
    n1: Seq<char>,
    a2: Seq<char>,
    n2: Seq<char>,
    hb: Seq<char>,
) -> OutcomeView {
    if a1 == "a"@ && a2 == "a"@ && n1 == "1"@ && n2 == "2"@ {
        OutcomeView::Pass(
            "the second request (Host "@ + hb
                + ") stayed on backend a, the same connection: routing is per connection"@,
        )
    } else if a2 == "b"@ {
        OutcomeView::Fail(
            "the second request went to backend b: routing is per request now, and README \"Router\" and docs/design.md say per connection"@,
        )
    } else {
        OutcomeView::Fail(
            "backends and request numbers seen: ["@ + pair_shown(a1, n1) + ", "@ + pair_shown(
                a2,
                n2,
            ) + "]"@,
        )
    }
}

/// The backend is chosen once, from the first head.
pub fn sticky(one: &(String, String), two: &(String, String), hb: &str) -> (r: Outcome)
    ensures
        r@ == sticky_verdict(one.0@, one.1@, two.0@, two.1@, hb@),
{
    let a1 = one.0.as_str();
    let n1 = one.1.as_str();
    let a2 = two.0.as_str();
    let n2 = two.1.as_str();
    if text::same(a1, "a") && text::same(a2, "a") && text::same(n1, "1") && text::same(n2, "2") {
        Outcome::Pass(
            String::from_str("the second request (Host ").concat(hb).concat(
                ") stayed on backend a, the same connection: routing is per connection",
            ),
        )
    } else if text::same(a2, "b") {
        fail(
            "the second request went to backend b: routing is per request now, and README \"Router\" and docs/design.md say per connection",
        )
    } else {
        Outcome::Fail(
            String::from_str("backends and request numbers seen: [").concat(
                show_pair(a1, n1).as_str(),
            ).concat(", ").concat(show_pair(a2, n2).as_str()).concat("]"),
        )
    }
}

// ---------------------------------------------------------------------------
// The splice
// ---------------------------------------------------------------------------

/// Whether the first line of a stream has arrived.
pub open spec fn has_first(buf: Seq<u8>) -> bool {
    text::has(text::lossy_text(buf), "first\n"@)
}

/// Whether the first line of a stream has arrived.
pub fn first_came(buf: &[u8]) -> (r: bool)
    ensures
        r == has_first(buf@),
        r == text::has(text::lossy_text(buf@), "first\n"@),
{
    text::text_has(text::lossy(buf).as_str(), "first\n")
}

/// The outcome of a stream that was closed before its first line.
pub fn no_first(buf: &[u8]) -> (r: Outcome)
    ensures
        r@ == OutcomeView::Fail(
            "closed before `first`: "@ + text::quoted(text::lossy_text(buf@)),
        ),
{
    Outcome::Fail(
        String::from_str("closed before `first`: ").concat(
            text::quote(text::lossy(buf).as_str()).as_str(),
        ),
    )
}

/// What a stream is worth: all of it, when its first line came and when it
/// ended.
pub open spec fn streaming_verdict(all: Seq<u8>, first: u128, end: u128) -> OutcomeView {
    if !text::has(text::lossy_text(all), "second\n"@) {
        OutcomeView::Fail("`second` never arrived: "@ + text::quoted(text::lossy_text(all)))
    } else if first >= 1_000_000_000 {
        OutcomeView::Fail(
            "`first` arrived after "@ + text::decimal(env::whole_millis(first))
                + " ms: held back until the backend finished (it waits 1.5 s)"@,
        )
    } else {
        OutcomeView::Pass(
            "`first` after "@ + text::decimal(env::whole_millis(first))
                + " ms, `second` after "@ + text::decimal(env::whole_millis(end)) + " ms"@,
        )
    }
}

/// A streamed response is not held back.
pub fn streaming(all: &[u8], first: u128, end: u128) -> (r: Outcome)
    ensures
        r@ == streaming_verdict(all@, first, end),
{
    let t = text::lossy(all);
    if !text::text_has(t.as_str(), "second\n") {
        return Outcome::Fail(
            String::from_str("`second` never arrived: ").concat(
                text::quote(t.as_str()).as_str(),
            ),
        );
    }
    if first >= 1_000_000_000 {
        return Outcome::Fail(
            String::from_str("`first` arrived after ").concat(
                env::millis_text(first).as_str(),
            ).concat(" ms: held back until the backend finished (it waits 1.5 s)"),
        );
    }
    Outcome::Pass(
        String::from_str("`first` after ").concat(env::millis_text(first).as_str()).concat(
            " ms, `second` after ",
        ).concat(env::millis_text(end).as_str()).concat(" ms"),
    )
}

/// A request for an upgrade.
pub open spec fn upgrade_text(host: Seq<char>) -> Seq<char> {
    "GET /ws HTTP/1.1\r\nHost: "@ + host
        + "\r\nConnection: Upgrade\r\nUpgrade: stormlb-test\r\n\r\n"@
}

/// A request for an upgrade.
pub fn upgrade_request(host: &str) -> (r: Vec<u8>)
    ensures
        r@ == encode_utf8(upgrade_text(host@)),
        r@ == encode_utf8(
            "GET /ws HTTP/1.1\r\nHost: "@ + host@
                + "\r\nConnection: Upgrade\r\nUpgrade: stormlb-test\r\n\r\n"@,
        ),
{
    String::from_str("GET /ws HTTP/1.1\r\nHost: ").concat(host).concat(
        "\r\nConnection: Upgrade\r\nUpgrade: stormlb-test\r\n\r\n",
    ).as_str().as_bytes_vec()
}

/// The outcome of an upgrade that was not answered with a 101; nothing where
/// it was.
pub open spec fn upgrade_refused(r: Reply) -> Option<OutcomeView> {
    match r {
        Reply::Answer(a) => if a.status == 101 {
            None
        } else {
            Some(OutcomeView::Fail("answered "@ + probe::told(a) + ", not 101"@))
        },
        Reply::Closed => Some(closed()),
        Reply::Failed(f) => Some(failed_at("response"@, f.why@)),
    }
}

/// The outcome of an upgrade that was not answered with a 101; nothing where
/// it was.
pub fn upgraded(reply: &Reply) -> (r: Option<Outcome>)
    ensures
        match r {
            Some(o) => upgrade_refused(*reply) == Some(o@),
            None => upgrade_refused(*reply) is None,
        },
{
    match reply {
        Reply::Answer(a) => if a.status == 101 {
            None
        } else {
            Some(
                Outcome::Fail(
                    String::from_str("answered ").concat(probe::tell(a).as_str()).concat(
                        ", not 101",
                    ),
                ),
            )
        },
        Reply::Closed => Some(fail_closed()),
        Reply::Failed(f) => Some(fail_io("response", f.why.as_str())),
    }
}

/// How many echo rounds go through the pipe.
pub const ROUNDS: u64 = 3;

/// What is sent through the pipe.
pub open spec fn ping_of(run_id: Seq<char>) -> Seq<char> {
    "ping "@ + run_id + " both ways\n"@
}

/// A text so many times.
pub open spec fn repeated(s: Seq<char>, n: nat) -> Seq<char>
    decreases n,
{
    if n == 0 {
        seq![]
    } else {
        repeated(s, (n - 1) as nat) + s
    }
}

/// A pipe that echoes what is sent, and the round it is in.
pub struct Pipe {
    pub ping: String,
    pub round: u64,
}

/// What to do about a pipe.
pub enum PipeStep {
    /// Send the ping of the next round.
    Ping,
    /// Read on.
    Read,
    /// The check is over.
    Over(Outcome),
}

/// What to do about a pipe.
pub enum PipeStepView {
    Ping,
    Read,
    Over(OutcomeView),
}

impl View for PipeStep {
    type V = PipeStepView;

    open spec fn view(&self) -> PipeStepView {
        match self {
            PipeStep::Ping => PipeStepView::Ping,
            PipeStep::Read => PipeStepView::Read,
            PipeStep::Over(o) => PipeStepView::Over(o@),
        }
    }
}

impl Pipe {
    /// A pipe in its first round.
    pub fn new(run_id: &str) -> (r: Pipe)
        ensures
            r.ping@ == ping_of(run_id@),
            r.round == 1,
    {
        Pipe { ping: String::from_str("ping ").concat(run_id).concat(" both ways\n"), round: 1 }
    }

    /// What the bytes that came back over all rounds lead to, so long after
    /// the last ping was sent: all pings came back, or not yet, or something
    /// else did, or it took too long.
    pub open spec fn next(self, got: Seq<u8>, elapsed: u128) -> PipeStepView {
        let want = repeated(self.ping@, self.round as nat);
        let t = text::lossy_text(got);
        if t == want {
            if self.round < ROUNDS {
                PipeStepView::Ping
            } else {
                PipeStepView::Over(
                    OutcomeView::Pass("101, then three echo rounds through the pipe"@),
                )
            }
        } else if elapsed > ECHO_WAIT || got.len() > encode_utf8(want).len() {
            PipeStepView::Over(
                OutcomeView::Fail(
                    "echo round "@ + text::decimal(self.round as nat) + ": got "@ + text::quoted(t),
                ),
            )
        } else {
            PipeStepView::Read
        }
    }

    /// Takes the bytes that came back over all rounds.
    pub fn look(&mut self, buf: &[u8], elapsed: u128) -> (r: PipeStep)
        ensures
            r@ == old(self).next(buf@, elapsed),
            final(self).ping == old(self).ping,
            final(self).round == old(self).round + if r is Ping {
                1int
            } else {
                0
            },
    {
        let mut want = String::new();
        let mut i: u64 = 0;
        assert(want@ =~= repeated(self.ping@, 0));
        while i < self.round
            invariant
                i <= self.round,
                want@ == repeated(self.ping@, i as nat),
            decreases self.round - i,
        {
            want = want.concat(self.ping.as_str());
            i += 1;
        }
        let got = text::lossy(buf);
        if text::same(got.as_str(), want.as_str()) {
            if self.round < ROUNDS {
                self.round = self.round + 1;
                return PipeStep::Ping;
            }
            return PipeStep::Over(
                Outcome::Pass(String::from_str("101, then three echo rounds through the pipe")),
            );
        }
        if elapsed > ECHO_WAIT || buf.len() > want.as_str().as_bytes().len() {
            return PipeStep::Over(
                Outcome::Fail(
                    String::from_str("echo round ").concat(
                        text::decimal_text(self.round as u128).as_str(),
                    ).concat(": got ").concat(text::quote(got.as_str()).as_str()),
                ),
            );
        }
        PipeStep::Read
    }

    /// The outcome of a pipe that was closed in a round.
    pub fn closed(&self) -> (r: Outcome)
        ensures
            r@ == OutcomeView::Fail(
                "closed in echo round "@ + text::decimal(self.round as nat),
            ),
    {
        Outcome::Fail(
            String::from_str("closed in echo round ").concat(
                text::decimal_text(self.round as u128).as_str(),
            ),
        )
    }
}

/// The head of a request with a large body.
pub open spec fn large_text(host: Seq<char>) -> Seq<char> {
    "POST /upload HTTP/1.1\r\nHost: "@ + host + "\r\nContent-Length: "@ + text::decimal(
        LARGE as nat,
    ) + "\r\nConnection: close\r\n\r\n"@
}

/// The head of a request with a large body.
pub fn large_head(host: &str) -> (r: Vec<u8>)
    ensures
        r@ == encode_utf8(large_text(host@)),
        r@ == encode_utf8(
            "POST /upload HTTP/1.1\r\nHost: "@ + host@ + "\r\nContent-Length: "@ + text::decimal(
                LARGE as nat,
            ) + "\r\nConnection: close\r\n\r\n"@,
        ),
{
    String::from_str("POST /upload HTTP/1.1\r\nHost: ").concat(host).concat(
        "\r\nContent-Length: ",
    ).concat(text::decimal_text(LARGE as u128).as_str()).concat(
        "\r\nConnection: close\r\n\r\n",
    ).as_str().as_bytes_vec()
}

/// What the answer to a large body is worth.
pub open spec fn large_body_verdict(r: Reply, elapsed: u128) -> OutcomeView {
    match r {
        Reply::Answer(a) => if http::field_of(a.body_text(), "got"@) == Some(
            text::decimal(LARGE as nat),
        ) && probe::is_from(a, "a"@) {
            OutcomeView::Pass(
                text::decimal(LARGE as nat) + " bytes through in "@ + text::decimal(
                    env::whole_millis(elapsed),
                ) + " ms"@,
            )
        } else {
            OutcomeView::Fail(probe::told(a))
        },
        Reply::Closed => closed(),
        Reply::Failed(f) => failed_at("response"@, f.why@),
    }
}

/// A large body passes whole.
pub fn large_body(reply: &Reply, elapsed: u128) -> (r: Outcome)
    ensures
        r@ == large_body_verdict(*reply, elapsed),
{
    let size = text::decimal_text(LARGE as u128);
    match reply {
        Reply::Answer(a) => if probe::is_text(
            &http::field(a.text().as_str(), "got"),
            size.as_str(),
        ) && probe::from_backend(a, "a") {
            Outcome::Pass(
                size.concat(" bytes through in ").concat(
                    env::millis_text(elapsed).as_str(),
                ).concat(" ms"),
            )
        } else {
            Outcome::Fail(probe::tell(a))
        },
        Reply::Closed => fail_closed(),
        Reply::Failed(f) => fail_io("response", f.why.as_str()),
    }
}

// ---------------------------------------------------------------------------
// Failure paths
// ---------------------------------------------------------------------------

/// The start of a head that never ends.
pub open spec fn head_start(host: Seq<char>) -> Seq<char> {
    "GET / HTTP/1.1\r\nHost: "@ + host + "\r\n"@
}

/// A hundred times the same letter.
pub open spec fn padding() -> Seq<char> {
    Seq::new(100, |i: int| 'a')
}

/// The first `k` lines that fill such a head.
pub open spec fn pad_lines(k: nat) -> Seq<char>
    decreases k,
{
    if k == 0 {
        seq![]
    } else {
        pad_lines((k - 1) as nat) + "X-Pad-"@ + text::decimal((k - 1) as nat) + ": "@ + padding()
            + "\r\n"@
    }
}

/// A text takes at least a byte for each character.
proof fn lemma_bytes(s: Seq<char>)
    ensures
        encode_utf8(s).len() >= s.len(),
    decreases s.len(),
{
    if s.len() > 0 {
        lemma_bytes(s.drop_first());
        char_is_scalar(s[0]);
    }
}

/// A head that never ends: filled up with whole lines, no more of them than
/// it takes to reach the length.
pub fn long_head(host: &str) -> (r: String)
    ensures
        encode_utf8(r@).len() >= LONG_HEAD,
        exists|k: nat|
            {
                &&& r@ == head_start(host@) + #[trigger] pad_lines(k)
                &&& k > 0 ==> encode_utf8(head_start(host@) + pad_lines((k - 1) as nat)).len()
                    < LONG_HEAD
            },
{
    let mut pad = String::new();
    let mut j: usize = 0;
    while j < 100
        invariant
            j <= 100,
            pad@ == padding().take(j as int),
        decreases 100 - j,
    {
        pad.push('a');
        j += 1;
        assert(pad@ =~= padding().take(j as int));
    }
    assert(padding().take(100) =~= padding());
    let mut head = String::from_str("GET / HTTP/1.1\r\nHost: ").concat(host).concat("\r\n");
    let mut i: u64 = 0;
    assert(head@ =~= head_start(host@) + pad_lines(0));
    while head.as_str().as_bytes().len() < LONG_HEAD
        invariant
            pad@ == padding(),
            head@ == head_start(host@) + pad_lines(i as nat),
            i <= head@.len(),
            i > 0 ==> encode_utf8(head_start(host@) + pad_lines((i - 1) as nat)).len() < LONG_HEAD,
        decreases
            (if head@.len() < LONG_HEAD {
                LONG_HEAD - head@.len()
            } else {
                0
            }),
    {
        proof {
            lemma_bytes(head@);
        }
        head = head.concat("X-Pad-").concat(text::decimal_text(i as u128).as_str()).concat(
            ": ",
        ).concat(pad.as_str()).concat("\r\n");
        i += 1;
        assert(head@ =~= head_start(host@) + pad_lines(i as nat));
    }
    head
}

/// What is to be said of a head that never ends: what came back until the
/// connection closed, or why it did not, and how many requests the backend
/// had seen before and after.
pub open spec fn head_limit_verdict(
    sent: nat,
    came: Result<Vec<u8>, String>,
    before: u64,
    after: u64,
) -> OutcomeView {
    match came {
        Ok(b) => if b@.len() == 0 && before == after {
            OutcomeView::Pass(
                text::decimal(sent) + " bytes of unterminated head: closed, nothing sent on"@,
            )
        } else if b@.len() == 0 {
            OutcomeView::Fail("closed, but the backend saw a request"@)
        } else {
            OutcomeView::Fail(
                "answered: "@ + text::quoted(
                    text::lossy_text(
                        if b@.len() > 120 {
                            b@.take(120)
                        } else {
                            b@
                        },
                    ),
                ),
            )
        },
        Err(e) => OutcomeView::Fail(
            "still open "@ + text::decimal(env::whole_secs(CLOSE_WAIT)) + " s after "@
                + text::decimal(sent) + " bytes of head: "@ + e@,
        ),
    }
}

/// A head that never ends is cut off, not buffered.
pub fn head_limit(sent: usize, came: &Result<Vec<u8>, String>, before: u64, after: u64) -> (r:
    Outcome)
    ensures
        r@ == head_limit_verdict(sent as nat, *came, before, after),
{
    let n = text::decimal_text(sent as u128);
    match came {
        Ok(b) => if b.len() == 0 && before == after {
            Outcome::Pass(n.concat(" bytes of unterminated head: closed, nothing sent on"))
        } else if b.len() == 0 {
            fail("closed, but the backend saw a request")
        } else {
            let part = if b.len() > 120 {
                slice_subrange(b.as_slice(), 0, 120)
            } else {
                b.as_slice()
            };
            assert(part@ =~= if b@.len() > 120 {
                b@.take(120)
            } else {
                b@
            });
            Outcome::Fail(
                String::from_str("answered: ").concat(
                    text::quote(text::lossy(part).as_str()).as_str(),
                ),
            )
        },
        Err(e) => Outcome::Fail(
            String::from_str("still open ").concat(env::secs_text(CLOSE_WAIT).as_str()).concat(
                " s after ",
            ).concat(n.as_str()).concat(" bytes of head: ").concat(e.as_str()),
        ),
    }
}

/// A dead backend's host, watched until its route shows. Times are in
/// nanoseconds.
pub struct DeadWatch {
    pub host: String,
    /// Where nothing listens.
    pub dead: String,
    pub wait: u128,
    /// What was seen last.
    pub last: String,
}

/// What one look at a dead backend's host comes to: the outcome, or what was
/// seen where the route does not show yet.
pub open spec fn dead_look(host: Seq<char>, dead: Seq<char>, r: Reply) -> Result<
    OutcomeView,
    Seq<char>,
> {
    match r {
        Reply::Closed => Ok(
            OutcomeView::Pass(
                host + " -> "@ + dead + " (nothing listening): closed with no response"@,
            ),
        ),
        Reply::Failed(f) => if f.reset {
            Ok(
                OutcomeView::Pass(
                    host + " -> "@ + dead + " (nothing listening): connection reset, no response"@,
                ),
            )
        } else {
            Err(f.why@)
        },
        Reply::Answer(a) => if probe::is_404(a) {
            Err("404, not programmed yet"@)
        } else {
            Ok(
                OutcomeView::Fail(
                    "answered "@ + probe::told(a)
                        + ": README says a dead backend closes with no response; update it"@,
                ),
            )
        },
    }
}

impl DeadWatch {
    /// Nothing was seen yet.
    pub fn new(host: &str, dead: &str, wait: u128) -> (r: DeadWatch)
        ensures
            r.host@ == host@,
            r.dead@ == dead@,
            r.wait == wait,
            r.last@ == ""@,
    {
        DeadWatch {
            host: String::from_str(host),
            dead: String::from_str(dead),
            wait,
            last: String::from_str(""),
        }
    }

    /// Whether to look again after `elapsed`.
    pub fn goes_on(&self, elapsed: u128) -> (r: bool)
        ensures
            r == (elapsed < self.wait),
            r == env::in_time(elapsed, self.wait),
    {
        elapsed < self.wait
    }

    /// Takes a reply. A backend that cannot be dialled closes the client's
    /// connection with no response.
    pub fn saw(&mut self, reply: &Reply) -> (r: Option<Outcome>)
        ensures
            final(self).host == old(self).host,
            final(self).dead == old(self).dead,
            final(self).wait == old(self).wait,
            match dead_look(old(self).host@, old(self).dead@, *reply) {
                Ok(o) => r is Some && r->0@ == o && final(self).last == old(self).last,
                Err(s) => r is None && final(self).last@ == s,
            },
    {
        match reply {
            Reply::Closed => Some(
                Outcome::Pass(
                    String::from_str(self.host.as_str()).concat(" -> ").concat(
                        self.dead.as_str(),
                    ).concat(" (nothing listening): closed with no response"),
                ),
            ),
            Reply::Failed(f) => if f.reset {
                Some(
                    Outcome::Pass(
                        String::from_str(self.host.as_str()).concat(" -> ").concat(
                            self.dead.as_str(),
                        ).concat(" (nothing listening): connection reset, no response"),
                    ),
                )
            } else {
                self.last = String::from_str(f.why.as_str());
                None
            },
            Reply::Answer(a) => if probe::own_404(a) {
                self.last = String::from_str("404, not programmed yet");
                None
            } else {
                Some(
                    Outcome::Fail(
                        String::from_str("answered ").concat(probe::tell(a).as_str()).concat(
                            ": README says a dead backend closes with no response; update it",
                        ),
                    ),
                )
            },
        }
    }

    /// The outcome where the route never showed.
    pub fn failure(&self) -> (r: Outcome)
        ensures
            r@ == OutcomeView::Fail(
                "never programmed in "@ + text::decimal(env::whole_secs(self.wait))
                    + " s; last: "@ + self.last@,
            ),
    {
        Outcome::Fail(
            String::from_str("never programmed in ").concat(
                env::secs_text(self.wait).as_str(),
            ).concat(" s; last: ").concat(self.last.as_str()),
        )
    }
}

/// The outcome where something could not be made.
pub fn cannot(what: &str, why: &str) -> (r: Outcome)
    ensures
        r@ == OutcomeView::Infra("cannot "@ + what@ + ": "@ + why@),
{
    Outcome::Infra(String::from_str("cannot ").concat(what).concat(": ").concat(why))
}

/// The outcome of a headless Service's own host, where it is not the router's
/// 404; nothing where it is.
pub open spec fn headless_own(host: Seq<char>, r: Reply) -> Option<OutcomeView> {
    match r {
        Reply::Answer(a) => if probe::is_404(a) {
            None
        } else {
            Some(
                OutcomeView::Fail(
                    host + " answered "@ + probe::told(a) + ", expected the router's 404"@,
                ),
            )
        },
        Reply::Closed => Some(
            OutcomeView::Fail(
                host + ": closed with no response, expected the router's 404"@,
            ),
        ),
        Reply::Failed(f) => Some(failed_at(host, f.why@)),
    }
}

/// The outcome of a headless Service's own host, where it is not the router's
/// 404; nothing where it is.
pub fn headless_skipped(host: &str, reply: &Reply) -> (r: Option<Outcome>)
    ensures
        match r {
            Some(o) => headless_own(host@, *reply) == Some(o@),
            None => headless_own(host@, *reply) is None,
        },
{
    match reply {
        Reply::Answer(a) => if probe::own_404(a) {
            None
        } else {
            Some(
                Outcome::Fail(
                    String::from_str(host).concat(" answered ").concat(
                        probe::tell(a).as_str(),
                    ).concat(", expected the router's 404"),
                ),
            )
        },
        Reply::Closed => Some(
            Outcome::Fail(
                String::from_str(host).concat(
                    ": closed with no response, expected the router's 404",
                ),
            ),
        ),
        Reply::Failed(f) => Some(fail_io(host, f.why.as_str())),
    }
}

/// What another host is worth beside a headless Service's.
pub open spec fn headless_verdict(
    host: Seq<char>,
    other: Seq<char>,
    settle: u128,
    r: Reply,
) -> OutcomeView {
    match r {
        Reply::Answer(a) => if a.status == 200 && a.backend_name() is Some {
            OutcomeView::Pass(
                host + " is a 404 after "@ + text::decimal(env::whole_secs(settle)) + " s; "@
                    + other + " is still served"@,
            )
        } else {
            OutcomeView::Fail(
                "the other routes broke: "@ + other + " answered "@ + probe::told(a),
            )
        },
        Reply::Closed => OutcomeView::Fail(
            "the other routes broke: "@ + other + " closed with no response"@,
        ),
        Reply::Failed(f) => failed_at(other, f.why@),
    }
}

/// A headless Service's route is skipped, and the rest of the table is
/// unaffected.
pub fn headless(host: &str, other: &str, settle: u128, reply: &Reply) -> (r: Outcome)
    ensures
        r@ == headless_verdict(host@, other@, settle, *reply),
{
    match reply {
        Reply::Answer(a) => {
            let named = match a.backend() {
                Some(_) => true,
                None => false,
            };
            if a.status == 200 && named {
                Outcome::Pass(
                    String::from_str(host).concat(" is a 404 after ").concat(
                        env::secs_text(settle).as_str(),
                    ).concat(" s; ").concat(other).concat(" is still served"),
                )
            } else {
                Outcome::Fail(
                    String::from_str("the other routes broke: ").concat(other).concat(
                        " answered ",
                    ).concat(probe::tell(a).as_str()),
                )
            }
        },
        Reply::Closed => Outcome::Fail(
            String::from_str("the other routes broke: ").concat(other).concat(
                " closed with no response",
            ),
        ),
        Reply::Failed(f) => fail_io(other, f.why.as_str()),
    }
}

// ---------------------------------------------------------------------------
// The table
// ---------------------------------------------------------------------------

/// The outcome of a route that should be updated and is gone.
pub fn route_gone(path: &str) -> (r: Outcome)
    ensures
        r@ == OutcomeView::Fail(path@ + " is gone"@),
{
    Outcome::Fail(String::from_str(path).concat(" is gone"))
}

/// What an updated route is worth: `took` is how long its host took to be
/// served by its new backend, or what went wrong.
pub open spec fn update_verdict(host: Seq<char>, took: Result<u128, String>) -> OutcomeView {
    match took {
        Ok(t) => OutcomeView::Pass(
            host + " moved from backend a to b after "@ + text::decimal(env::whole_millis(t))
                + " ms"@,
        ),
        Err(e) => OutcomeView::Fail(e@),
    }
}

/// Whether an updated route's host came to be served by its new backend.
pub fn route_update(host: &str, took: &Result<u128, String>) -> (r: Outcome)
    ensures
        r@ == update_verdict(host@, *took),
        r@ == (match took {
            Ok(t) => OutcomeView::Pass(
                host@ + " moved from backend a to b after "@ + text::decimal(env::whole_millis(*t))
                    + " ms"@,
            ),
            Err(e) => OutcomeView::Fail(e@),
        }),
{
    match took {
        Ok(t) => Outcome::Pass(
            String::from_str(host).concat(" moved from backend a to b after ").concat(
                env::millis_text(*t).as_str(),
            ).concat(" ms"),
        ),
        Err(e) => fail(e.as_str()),
    }
}

/// One port of an object.
pub open spec fn port_tree(port: u16, target: bool) -> JsonTree {
    if target {
        JsonTree::Object(
            seq![
                ("name"@, JsonTree::Text("http"@)),
                ("port"@, json::whole(port as u64)),
                ("targetPort"@, json::whole(port as u64)),
                ("protocol"@, JsonTree::Text("TCP"@)),
            ],
        )
    } else {
        JsonTree::Object(
            seq![
                ("name"@, JsonTree::Text("http"@)),
                ("port"@, json::whole(port as u64)),
                ("protocol"@, JsonTree::Text("TCP"@)),
            ],
        )
    }
}

fn port_list(port: u16, target: bool) -> (r: Json)
    ensures
        r@ == JsonTree::Array(seq![port_tree(port, target)]),
{
    let mut m: Vec<(String, Json)> = Vec::new();
    m.push((String::from_str("name"), json::text_value("http")));
    m.push((String::from_str("port"), json::number_value(port as u64)));
    if target {
        m.push((String::from_str("targetPort"), json::number_value(port as u64)));
    }
    m.push((String::from_str("protocol"), json::text_value("TCP")));
    assert(json::members(m@) =~= json::pairs(port_tree(port, target)));
    let mut v: Vec<Json> = Vec::new();
    v.push(json::object_value(m));
    assert(json::trees(v@) =~= seq![port_tree(port, target)]);
    json::list_value(v)
}

/// A kind of object of this run, with one part of its own.
pub open spec fn object_tree(
    api: Api,
    kind: Seq<char>,
    name: Seq<char>,
    part: Seq<char>,
    t: JsonTree,
) -> JsonTree {
    JsonTree::Object(
        seq![
            ("apiVersion"@, JsonTree::Text("v1"@)),
            ("kind"@, JsonTree::Text(kind)),
            ("metadata"@, JsonTree::Object(api.meta_members(name))),
            (part, t),
        ],
    )
}

fn object(api: &Api, kind: &str, name: &str, part: &str, v: Json) -> (r: Json)
    ensures
        r@ == object_tree(*api, kind@, name@, part@, v@),
{
    let ghost t = v@;
    let mut m: Vec<(String, Json)> = Vec::new();
    m.push((String::from_str("apiVersion"), json::text_value("v1")));
    m.push((String::from_str("kind"), json::text_value(kind)));
    m.push((String::from_str("metadata"), api.meta(name)));
    m.push((String::from_str(part), v));
    assert(json::members(m@) =~= json::pairs(object_tree(*api, kind@, name@, part@, t)));
    json::object_value(m)
}

/// A Service without a selector, on one port.
pub open spec fn service_tree(api: Api, name: Seq<char>, port: u16) -> JsonTree {
    object_tree(
        api,
        "Service"@,
        name,
        "spec"@,
        JsonTree::Object(seq![("ports"@, JsonTree::Array(seq![port_tree(port, true)]))]),
    )
}

/// A Service without an address of its own.
pub open spec fn headless_tree(api: Api, name: Seq<char>, port: u16) -> JsonTree {
    object_tree(
        api,
        "Service"@,
        name,
        "spec"@,
        JsonTree::Object(
            seq![
                ("clusterIP"@, JsonTree::Text("None"@)),
                ("ports"@, JsonTree::Array(seq![port_tree(port, false)])),
            ],
        ),
    )
}

/// A Service without a selector, on one port.
pub fn service(api: &Api, name: &str, port: u16) -> (r: Json)
    ensures
        r@ == service_tree(*api, name@, port),
        r@ == object_tree(
            *api,
            "Service"@,
            name@,
            "spec"@,
            JsonTree::Object(seq![("ports"@, JsonTree::Array(seq![port_tree(port, true)]))]),
        ),
{
    let mut m: Vec<(String, Json)> = Vec::new();
    m.push((String::from_str("ports"), port_list(port, true)));
    assert(json::members(m@) =~= seq![("ports"@, JsonTree::Array(seq![port_tree(port, true)]))]);
    object(api, "Service", name, "spec", json::object_value(m))
}

/// A Service without an address of its own.
pub fn headless_service(api: &Api, name: &str, port: u16) -> (r: Json)
    ensures
        r@ == headless_tree(*api, name@, port),
        r@ == object_tree(
            *api,
            "Service"@,
            name@,
            "spec"@,
            JsonTree::Object(
                seq![
                    ("clusterIP"@, JsonTree::Text("None"@)),
                    ("ports"@, JsonTree::Array(seq![port_tree(port, false)])),
                ],
            ),
        ),
{
    let mut m: Vec<(String, Json)> = Vec::new();
    m.push((String::from_str("clusterIP"), json::text_value("None")));
    m.push((String::from_str("ports"), port_list(port, false)));
    assert(json::members(m@) =~= seq![
        ("clusterIP"@, JsonTree::Text("None"@)),
        ("ports"@, JsonTree::Array(seq![port_tree(port, false)])),
    ]);
    object(api, "Service", name, "spec", json::object_value(m))
}

/// One subset of an Endpoints object: an address and a port.
pub open spec fn subset_members(ip: Seq<char>, port: u16) -> Seq<(Seq<char>, JsonTree)> {
    seq![
        (
            "addresses"@,
            JsonTree::Array(seq![JsonTree::Object(seq![("ip"@, JsonTree::Text(ip))])]),
        ),
        ("ports"@, JsonTree::Array(seq![port_tree(port, false)])),
    ]
}

/// The Endpoints of such a Service: one address.
pub open spec fn endpoints_tree(api: Api, name: Seq<char>, ip: Seq<char>, port: u16) -> JsonTree {
    object_tree(
        api,
        "Endpoints"@,
        name,
        "subsets"@,
        JsonTree::Array(seq![JsonTree::Object(subset_members(ip, port))]),
    )
}

/// The Endpoints of such a Service: one address.
pub fn endpoints(api: &Api, name: &str, ip: &str, port: u16) -> (r: Json)
    ensures
        r@ == endpoints_tree(*api, name@, ip@, port),
        r@ == object_tree(
            *api,
            "Endpoints"@,
            name@,
            "subsets"@,
            JsonTree::Array(seq![JsonTree::Object(subset_members(ip@, port))]),
        ),
{
    let mut a: Vec<(String, Json)> = Vec::new();
    a.push((String::from_str("ip"), json::text_value(ip)));
    assert(json::members(a@) =~= seq![("ip"@, JsonTree::Text(ip@))]);
    let mut list: Vec<Json> = Vec::new();
    list.push(json::object_value(a));
    assert(json::trees(list@) =~= seq![JsonTree::Object(seq![("ip"@, JsonTree::Text(ip@))])]);
    let mut m: Vec<(String, Json)> = Vec::new();
    m.push((String::from_str("addresses"), json::list_value(list)));
    m.push((String::from_str("ports"), port_list(port, false)));
    assert(json::members(m@) =~= subset_members(ip@, port));
    let mut v: Vec<Json> = Vec::new();
    v.push(json::object_value(m));
    assert(json::trees(v@) =~= seq![JsonTree::Object(subset_members(ip@, port))]);
    object(api, "Endpoints", name, "subsets", json::list_value(v))
}

/// A Service, watched until it was given an address. Times are in
/// nanoseconds.
pub struct ServiceWatch {
    pub name: String,
    /// Its specification as it was last seen, as JSON.
    pub spec_shown: String,
}

impl ServiceWatch {
    /// Nothing was seen yet.
    pub fn new(name: &str) -> (r: ServiceWatch)
        ensures
            r.name@ == name@,
            r.spec_shown@ == "null"@,
    {
        ServiceWatch { name: String::from_str(name), spec_shown: String::from_str("null") }
    }

    /// Whether to look again after `elapsed`.
    pub fn goes_on(&self, elapsed: u128) -> (r: bool)
        ensures
            r == (elapsed < ADDRESS_WAIT),
            r == env::in_time(elapsed, ADDRESS_WAIT),
    {
        elapsed < ADDRESS_WAIT
    }

    /// Takes what the apiserver holds, which may be nothing yet. Returns the
    /// address, once there is one.
    pub fn saw(&mut self, service: Option<&str>) -> (r: Option<String>)
        ensures
            final(self).name == old(self).name,
            match service {
                None => r is None && final(self).spec_shown == old(self).spec_shown,
                Some(s) => {
                    &&& text::opt_string(r) == router::cluster_ip_of(json::tree_or_text(s@))
                    &&& r is Some ==> final(self).spec_shown == old(self).spec_shown
                    &&& r is None ==> final(self).spec_shown@ == json::json_text(
                        json::member(json::tree_or_text(s@), "spec"@),
                    )
                },
            },
    {
        let s = match service {
            Some(s) => s,
            None => {
                return None;
            },
        };
        let (tree, _) = json::read_shown(s);
        let ip = router::cluster_ip(&tree);
        if ip.is_none() {
            self.spec_shown = json::member_shown(s, "spec");
        }
        ip
    }

    /// What is said of a Service that was given no address in time.
    pub fn failure(&self) -> (r: String)
        ensures
            r@ == "Service "@ + self.name@ + " has no clusterIP after "@ + text::decimal(
                env::whole_secs(ADDRESS_WAIT),
            ) + " s: spec "@ + self.spec_shown@,
    {
        String::from_str("Service ").concat(self.name.as_str()).concat(
            " has no clusterIP after ",
        ).concat(env::secs_text(ADDRESS_WAIT).as_str()).concat(" s: spec ").concat(
            self.spec_shown.as_str(),
        )
    }
}

/// The outcome where a Service cannot be reached from here either.
pub fn no_data_plane(direct: &str, why: &str) -> (r: Outcome)
    ensures
        r@ == OutcomeView::Skip(
            "requires a Service data plane: "@ + direct@
                + " does not reach its Endpoints from this node either ("@ + why@
                + "), so the router's backendRef path cannot be exercised here"@,
        ),
{
    Outcome::Skip(
        String::from_str("requires a Service data plane: ").concat(direct).concat(
            " does not reach its Endpoints from this node either (",
        ).concat(why).concat("), so the router's backendRef path cannot be exercised here"),
    )
}

/// What a route to a Service is worth: `took` is how long its host took to be
/// served by the backend behind it, or what went wrong.
pub open spec fn backendref_verdict(
    host: Seq<char>,
    direct: Seq<char>,
    took: Result<u128, String>,
) -> OutcomeView {
    match took {
        Ok(t) => OutcomeView::Pass(
            host + " -> Service svc-c ("@ + direct + ") -> backend c after "@ + text::decimal(
                env::whole_millis(t),
            ) + " ms"@,
        ),
        Err(e) => OutcomeView::Fail(e@),
    }
}

/// Whether a route to a Service came to be served by the backend behind it.
pub fn backendref(host: &str, direct: &str, took: &Result<u128, String>) -> (r: Outcome)
    ensures
        r@ == backendref_verdict(host@, direct@, *took),
        r@ == (match took {
            Ok(t) => OutcomeView::Pass(
                host@ + " -> Service svc-c ("@ + direct@ + ") -> backend c after "@
                    + text::decimal(env::whole_millis(*t)) + " ms"@,
            ),
            Err(e) => OutcomeView::Fail(e@),
        }),
{
    match took {
        Ok(t) => Outcome::Pass(
            String::from_str(host).concat(" -> Service svc-c (").concat(direct).concat(
                ") -> backend c after ",
            ).concat(env::millis_text(*t).as_str()).concat(" ms"),
        ),
        Err(e) => fail(e.as_str()),
    }
}

/// The name of one of many routes.
pub open spec fn many_name_of(i: nat) -> Seq<char> {
    "m"@ + text::decimal(i)
}

/// The name of one of many routes.
pub fn many_name(i: usize) -> (r: String)
    ensures
        r@ == many_name_of(i as nat),
        r@ == "m"@ + text::decimal(i as nat),
{
    String::from_str("m").concat(text::decimal_text(i as u128).as_str())
}

/// The backend of one of many routes: two take turns.
pub open spec fn turn_of(i: nat) -> Seq<char> {
    if i % 2 == 0 {
        "a"@
    } else {
        "b"@
    }
}

/// The backend of one of many routes: two take turns.
pub fn many_backend(i: usize) -> (r: &'static str)
    ensures
        r@ == turn_of(i as nat),
        r@ == (if i % 2 == 0 {
            "a"@
        } else {
            "b"@
        }),
{
    if i % 2 == 0 {
        "a"
    } else {
        "b"
    }
}

/// What is wrong with the reply for one of many hosts; nothing where it came
/// from its backend, for that host.
pub open spec fn many_wrong(host: Seq<char>, backend: Seq<char>, r: Reply) -> Option<Seq<char>> {
    match r {
        Reply::Answer(a) => if probe::is_from(a, backend) && http::field_of(
            a.body_text(),
            "host"@,
        ) == Some(host) {
            None
        } else {
            Some(host + ": "@ + probe::seen_resp(a))
        },
        Reply::Closed => Some(host + ": Ok(None)"@),
        Reply::Failed(f) => Some(host + ": Err("@ + f.debug@ + ")"@),
    }
}

/// What is wrong with the reply for one of many hosts; nothing where it came
/// from its backend, for that host.
pub fn many_check(host: &str, backend: &str, reply: &Reply) -> (r: Option<String>)
    ensures
        text::opt_string(r) == many_wrong(host@, backend@, *reply),
{
    let h = String::from_str(host);
    match reply {
        Reply::Answer(a) => if probe::from_backend(a, backend) && probe::is_text(
            &http::field(a.text().as_str(), "host"),
            host,
        ) {
            None
        } else {
            Some(h.concat(": ").concat(probe::tell_trimmed(a).as_str()))
        },
        Reply::Closed => Some(h.concat(": Ok(None)")),
        Reply::Failed(f) => Some(h.concat(": Err(").concat(f.debug.as_str()).concat(")")),
    }
}

/// Many hosts, watched until each is served right. Times are in nanoseconds.
pub struct ManyWatch {
    /// The hosts that are not yet, each with its backend.
    pub pending: Vec<(String, String)>,
    /// What was seen last of a host that is not.
    pub last: String,
    pub wait: u128,
}

/// The views of some hosts and their backends.
pub open spec fn pair_views(v: Seq<(String, String)>) -> Seq<(Seq<char>, Seq<char>)> {
    v.map_values(|x: (String, String)| (x.0@, x.1@))
}

/// The first `n` of some hosts without those whose reply is right. A host
/// without a reply is not right yet.
pub open spec fn wrong_hosts(
    hosts: Seq<(Seq<char>, Seq<char>)>,
    replies: Seq<Reply>,
    n: nat,
) -> Seq<(Seq<char>, Seq<char>)>
    decreases n,
{
    if n == 0 {
        seq![]
    } else {
        let before = wrong_hosts(hosts, replies, (n - 1) as nat);
        let h = hosts[n - 1];
        if n <= replies.len() && many_wrong(h.0, h.1, replies[n - 1]) is None {
            before
        } else {
            before.push(h)
        }
    }
}

/// What is wrong with the last of the first `n` replies that is not right;
/// `last` where each is.
pub open spec fn last_wrong(
    hosts: Seq<(Seq<char>, Seq<char>)>,
    replies: Seq<Reply>,
    n: nat,
    last: Seq<char>,
) -> Seq<char>
    decreases n,
{
    if n == 0 {
        last
    } else {
        let h = hosts[n - 1];
        if n > replies.len() {
            last_wrong(hosts, replies, (n - 1) as nat, last)
        } else {
            match many_wrong(h.0, h.1, replies[n - 1]) {
                Some(s) => s,
                None => last_wrong(hosts, replies, (n - 1) as nat, last),
            }
        }
    }
}

/// What many hosts are worth, of which so many are not served right.
pub open spec fn many_verdict(
    pending: nat,
    wait: u128,
    last: Seq<char>,
    elapsed: u128,
) -> OutcomeView {
    if pending > 0 {
        OutcomeView::Fail(
            text::decimal(pending) + " of "@ + text::decimal(MANY as nat)
                + " hosts not served right after "@ + text::decimal(env::whole_secs(wait))
                + " s; last: "@ + last,
        )
    } else {
        OutcomeView::Pass(
            text::decimal(MANY as nat) + " hosts, alternating two backends, all right after "@
                + text::decimal(env::whole_millis(elapsed)) + " ms"@,
        )
    }
}

impl ManyWatch {
    /// Watches all of `want`.
    pub fn new(want: Vec<(String, String)>, wait: u128) -> (r: ManyWatch)
        ensures
            r.pending@ == want@,
            r.last@ == ""@,
            r.wait == wait,
    {
        ManyWatch { pending: want, last: String::from_str(""), wait }
    }

    /// Whether to ask for the hosts that are pending, after `elapsed`.
    pub fn goes_on(&self, elapsed: u128) -> (r: bool)
        ensures
            r == (self.pending@.len() > 0 && elapsed < self.wait),
            r == (self.pending@.len() > 0 && env::in_time(elapsed, self.wait)),
    {
        self.pending.len() > 0 && elapsed < self.wait
    }

    /// Takes the replies for the hosts that are pending, in their order.
    pub fn round(&mut self, replies: &Vec<Reply>)
        ensures
            pair_views(final(self).pending@) == wrong_hosts(
                pair_views(old(self).pending@),
                replies@,
                old(self).pending@.len(),
            ),
            final(self).last@ == last_wrong(
                pair_views(old(self).pending@),
                replies@,
                old(self).pending@.len(),
                old(self).last@,
            ),
            final(self).wait == old(self).wait,
    {
        let ghost hosts = pair_views(self.pending@);
        let ghost before = self.last@;
        let mut still: Vec<(String, String)> = Vec::new();
        let mut i: usize = 0;
        assert(pair_views(still@) =~= seq![]);
        while i < self.pending.len()
            invariant
                i <= self.pending@.len(),
                self.wait == old(self).wait,
                self.pending == old(self).pending,
                hosts == pair_views(self.pending@),
                pair_views(still@) == wrong_hosts(hosts, replies@, i as nat),
                self.last@ == last_wrong(hosts, replies@, i as nat, before),
            decreases self.pending.len() - i,
        {
            let host = String::from_str(self.pending[i].0.as_str());
            let backend = String::from_str(self.pending[i].1.as_str());
            assert(hosts[i as int] == (host@, backend@));
            let wrong = if i < replies.len() {
                match many_check(host.as_str(), backend.as_str(), &replies[i]) {
                    Some(s) => {
                        self.last = s;
                        true
                    },
                    None => false,
                }
            } else {
                true
            };
            let ghost kept = still@;
            if wrong {
                still.push((host, backend));
                assert(pair_views(still@) =~= pair_views(kept).push(hosts[i as int]));
            }
            i += 1;
        }
        self.pending = still;
    }

    /// What the routes are worth, so long after the first request.
    pub fn outcome(&self, elapsed: u128) -> (r: Outcome)
        ensures
            r@ == many_verdict(self.pending@.len(), self.wait, self.last@, elapsed),
            r@ == (if self.pending@.len() > 0 {
                OutcomeView::Fail(
                    text::decimal(self.pending@.len()) + " of "@ + text::decimal(MANY as nat)
                        + " hosts not served right after "@ + text::decimal(
                        env::whole_secs(self.wait),
                    ) + " s; last: "@ + self.last@,
                )
            } else {
                OutcomeView::Pass(
                    text::decimal(MANY as nat)
                        + " hosts, alternating two backends, all right after "@ + text::decimal(
                        env::whole_millis(elapsed),
                    ) + " ms"@,
                )
            }),
    {
        let many = text::decimal_text(MANY as u128);
        if self.pending.len() > 0 {
            Outcome::Fail(
                text::decimal_text(self.pending.len() as u128).concat(" of ").concat(
                    many.as_str(),
                ).concat(" hosts not served right after ").concat(
                    env::secs_text(self.wait).as_str(),
                ).concat(" s; last: ").concat(self.last.as_str()),
            )
        } else {
            Outcome::Pass(
                many.concat(" hosts, alternating two backends, all right after ").concat(
                    env::millis_text(elapsed).as_str(),
                ).concat(" ms"),
            )
        }
    }
}

/// How many connections `concurrent-connections` opens at once.
pub open spec fn concurrency(fds: Option<u64>) -> nat {
    let n = match fds {
        Some(l) => if l < 64 {
            0
        } else {
            (l - 64) as nat / 3
        },
        None => 200,
    };
    if n < 8 {
        8
    } else if n > 200 {
        200
    } else {
        n
    }
}

/// How many connections `concurrent-connections` opens at once, from the
/// open-file limit: at least 8, at most 200.
pub fn concurrent_connections(fds: Option<u64>) -> (r: usize)
    ensures
        r == concurrency(fds),
{
    let n: u64 = match fds {
        Some(l) => if l < 64 {
            0
        } else {
            (l - 64) / 3
        },
        None => 200,
    };
    if n < 8 {
        8
    } else if n > 200 {
        200
    } else {
        n as usize
    }
}

/// What is wrong with the reply on one of many connections; nothing where it
/// came from its backend.
pub open spec fn concurrent_wrong(
    host: Seq<char>,
    backend: Seq<char>,
    r: Reply,
) -> Option<Seq<char>> {
    match r {
        Reply::Answer(a) => if probe::is_from(a, backend) {
            None
        } else {
            Some(host + ": "@ + probe::seen_resp(a))
        },
        Reply::Closed => Some(host + ": closed with no response"@),
        Reply::Failed(f) => Some(host + ": "@ + f.why@),
    }
}

/// What is wrong with the reply on one of many connections; nothing where it
/// came from its backend.
pub fn concurrent_check(host: &str, backend: &str, reply: &Reply) -> (r: Option<String>)
    ensures
        text::opt_string(r) == concurrent_wrong(host@, backend@, *reply),
{
    let h = String::from_str(host);
    match reply {
        Reply::Answer(a) => if probe::from_backend(a, backend) {
            None
        } else {
            Some(h.concat(": ").concat(probe::tell_trimmed(a).as_str()))
        },
        Reply::Closed => Some(h.concat(": closed with no response")),
        Reply::Failed(f) => Some(h.concat(": ").concat(f.why.as_str())),
    }
}

/// What many connections at once are worth: how many were right, what was
/// wrong with the others, how many there were and over how many hosts.
pub open spec fn concurrent_verdict(ok: nat, bad: Seq<Seq<char>>, n: nat, hosts: nat) -> OutcomeView {
    if bad.len() == 0 {
        OutcomeView::Pass(
            text::decimal(ok) + " concurrent connections over "@ + text::decimal(hosts)
                + " hosts, every one on its own backend"@,
        )
    } else {
        OutcomeView::Fail(
            text::decimal(bad.len()) + " of "@ + text::decimal(n) + " wrong; first: "@ + bad[0],
        )
    }
}

/// What many connections at once are worth: how many were right, what was
/// wrong with the others, how many there were and over how many hosts.
pub fn concurrent(ok: usize, bad: &Vec<String>, n: usize, hosts: usize) -> (r: Outcome)
    ensures
        r@ == concurrent_verdict(ok as nat, text::texts(bad@), n as nat, hosts as nat),
        r@ == (if bad@.len() == 0 {
            OutcomeView::Pass(
                text::decimal(ok as nat) + " concurrent connections over "@ + text::decimal(
                    hosts as nat,
                ) + " hosts, every one on its own backend"@,
            )
        } else {
            OutcomeView::Fail(
                text::decimal(bad@.len()) + " of "@ + text::decimal(n as nat) + " wrong; first: "@
                    + bad@[0]@,
            )
        }),
{
    if bad.len() == 0 {
        Outcome::Pass(
            text::decimal_text(ok as u128).concat(" concurrent connections over ").concat(
                text::decimal_text(hosts as u128).as_str(),
            ).concat(" hosts, every one on its own backend"),
        )
    } else {
        Outcome::Fail(
            text::decimal_text(bad.len() as u128).concat(" of ").concat(
                text::decimal_text(n as u128).as_str(),
            ).concat(" wrong; first: ").concat(bad[0].as_str()),
        )
    }
}

/// How long the next deleted host may still take: what is left of the wait,
/// and a second at least.
pub open spec fn still_left(wait: u128, elapsed: u128) -> nat {
    if wait >= elapsed + 1_000_000_000 {
        (wait - elapsed) as nat
    } else {
        1_000_000_000
    }
}

/// How long the next deleted host may still take: what is left of the wait,
/// and a second at least.
pub fn time_left(wait: u128, elapsed: u128) -> (r: u128)
    ensures
        r == still_left(wait, elapsed),
        r == (if wait >= elapsed + 1_000_000_000 {
            wait - elapsed
        } else {
            1_000_000_000
        }),
{
    let left: u128 = if wait > elapsed {
        wait - elapsed
    } else {
        0
    };
    if left > 1_000_000_000 {
        left
    } else {
        1_000_000_000
    }
}

/// The outcome of deleted routes whose hosts are all 404s.
pub fn deleted(routes: usize, hosts: usize, elapsed: u128) -> (r: Outcome)
    ensures
        r@ == OutcomeView::Pass(
            text::decimal(routes as nat) + " routes deleted; all "@ + text::decimal(hosts as nat)
                + " hosts 404 after "@ + text::decimal(env::whole_millis(elapsed)) + " ms"@,
        ),
{
    Outcome::Pass(
        text::decimal_text(routes as u128).concat(" routes deleted; all ").concat(
            text::decimal_text(hosts as u128).as_str(),
        ).concat(" hosts 404 after ").concat(env::millis_text(elapsed).as_str()).concat(" ms"),
    )
}

// ---------------------------------------------------------------------------
// Laws
// ---------------------------------------------------------------------------

/// `no-host` passes on an answer with status 400, and on nothing else.
pub proof fn no_host_passes_on_a_400(r: Reply)
    ensures
        no_host_verdict(r) is Pass <==> (r matches Reply::Answer(a) && a.status == 400),
        !(no_host_verdict(r) is Pass) ==> no_host_verdict(r) is Fail,
        r matches Reply::Answer(a) ==> (if a.status == 400 {
            no_host_verdict(r).detail() == "400 "@ + text::quoted(
                text::trimmed(text::lossy_text(a.body@)),
            )
        } else {
            no_host_verdict(r).detail() == "answered "@ + probe::told(a)
        }),
        r is Closed ==> no_host_verdict(r).detail() == "closed with no response"@,
        r matches Reply::Failed(f) ==> no_host_verdict(r).detail() == f.why@,
{
}

/// `unknown-host` passes on an answer with status 404 whose text names the
/// host that was asked for, and on nothing else.
pub proof fn unknown_host_passes_on_a_404_that_names_it(host: Seq<char>, r: Reply)
    ensures
        unknown_host_verdict(host, r) is Pass <==> (r matches Reply::Answer(a) && a.status == 404
            && text::has(text::lossy_text(a.body@), "no route for host "@ + host)),
        !(unknown_host_verdict(host, r) is Pass) ==> unknown_host_verdict(host, r) is Fail,
        r matches Reply::Answer(a) ==> (if unknown_host_verdict(host, r) is Pass {
            unknown_host_verdict(host, r).detail() == "404 "@ + text::quoted(
                text::trimmed(text::lossy_text(a.body@)),
            )
        } else {
            unknown_host_verdict(host, r).detail() == "answered "@ + probe::told(a)
        }),
        r is Closed ==> unknown_host_verdict(host, r).detail() == "closed with no response"@,
        r matches Reply::Failed(f) ==> unknown_host_verdict(host, r).detail() == f.why@,
{
}

/// `healthz-crlf` passes on an answer whose head ended in CR LF CR LF, and on
/// nothing else; a head that did not is shown.
pub proof fn healthz_crlf_passes_on_crlf(r: Reply)
    ensures
        healthz_crlf_verdict(r) is Pass <==> (r matches Reply::Answer(a) && a.crlf),
        !(healthz_crlf_verdict(r) is Pass) ==> healthz_crlf_verdict(r) is Fail,
        r matches Reply::Answer(a) ==> (!a.crlf ==> healthz_crlf_verdict(r).detail()
            == "the /healthz head uses bare LF line endings (stormlb#5): "@ + text::quoted(
            a.head@,
        )),
        r is Closed ==> healthz_crlf_verdict(r).detail() == "closed with no response"@,
        r matches Reply::Failed(f) ==> healthz_crlf_verdict(r).detail() == f.why@,
{
}

/// `no-restarts` passes where stormlb runs at the end and both counts are what
/// they were at the start, and on nothing else. It is skipped without a
/// supervisor or without a view from the start, and otherwise fails.
pub proof fn no_restarts_passes_where_nothing_changed(
    stormd: bool,
    before: Option<Result<Supervised, String>>,
    now: Result<Supervised, String>,
)
    ensures
        no_restarts_verdict(stormd, before, now) is Pass <==> stormd && (before matches Some(Ok(b))
            && (now matches Ok(n) && n.running && n.restarts == b.restarts && n.crashes
            == b.crashes)),
        no_restarts_verdict(stormd, before, now) is Skip <==> !stormd || before is None,
        !(no_restarts_verdict(stormd, before, now) is Infra),
        stormd ==> (before matches Some(Err(e)) ==> no_restarts_verdict(
            stormd,
            before,
            now,
        ).detail() == "stormd unreadable at the start: "@ + e@),
        stormd ==> (before matches Some(Ok(b)) ==> (now matches Err(e) ==> no_restarts_verdict(
            stormd,
            before,
            now,
        ).detail() == e@)),
{
}

/// `program` passes where the routes were created and served, and on nothing
/// else; it could not be made where they were not created.
pub proof fn program_passes_where_both_are_served(
    created: Result<(), String>,
    served: Result<u128, String>,
)
    ensures
        program_verdict(created, served) is Pass <==> created is Ok && served is Ok,
        program_verdict(created, served) is Infra <==> created is Err,
        program_verdict(created, served) is Fail <==> created is Ok && served is Err,
        created is Ok ==> (served matches Err(e) ==> program_verdict(created, served).detail()
            == e@),
        created matches Err(e) ==> program_verdict(created, served).detail()
            == "cannot create the HTTPRoute: "@ + e@,
{
}

/// `healthz-claimed` passes on an answer with status 200 from backend a for
/// the path `/healthz`, and on nothing else.
pub proof fn healthz_claimed_passes_on_what_backend_a_answers(r: Reply)
    ensures
        healthz_claimed_verdict(r) is Pass <==> (r matches Reply::Answer(a) && a.status == 200
            && http::field_of(text::lossy_text(a.body@), "backend"@) == Some("a"@) && text::has(
            text::lossy_text(a.body@),
            "path=/healthz"@,
        )),
        !(healthz_claimed_verdict(r) is Pass) ==> healthz_claimed_verdict(r) is Fail,
        r is Closed ==> healthz_claimed_verdict(r).detail() == "closed with no response"@,
        r matches Reply::Failed(f) ==> healthz_claimed_verdict(r).detail() == "fetch"@ + ": "@
            + f.why@,
{
}

/// `host-case-and-port` passes on an answer whose body names backend a, and on
/// nothing else: no other answer, no closed connection and no failure.
pub proof fn host_case_passes_on_what_backend_a_answers(host: Seq<char>, r: Reply)
    ensures
        host_case_verdict(host, r) is Pass <==> (r matches Reply::Answer(a) && http::field_of(
            text::lossy_text(a.body@),
            "backend"@,
        ) == Some("a"@)),
        !(host_case_verdict(host, r) is Pass) ==> host_case_verdict(host, r) is Fail,
        r matches Reply::Answer(a) ==> (!(host_case_verdict(host, r) is Pass) ==> host_case_verdict(
            host,
            r,
        ).detail() == "Host "@ + text::quoted(host) + ": "@ + probe::told(a)),
        r is Closed ==> host_case_verdict(host, r).detail() == "closed with no response"@,
        r matches Reply::Failed(f) ==> host_case_verdict(host, r).detail() == "fetch"@ + ": "@
            + f.why@,
{
}

/// The host that `host-case-and-port` asks for is the host's letters in upper
/// case, on port 80; the router takes it for the host itself.
pub proof fn a_loud_host_is_the_same_host(host: Seq<char>)
    ensures
        loud(host).len() == host.len() + 3,
        loud(host).skip(host.len() as int) == ":80"@,
        text::lowered(loud(host).take(host.len() as int)) == text::lowered(host),
        forall|i: int| 0 <= i < host.len() ==> !('a' <= #[trigger] loud(host)[i] <= 'z'),
{
    reveal_strlit(":80");
    let u = loud(host).take(host.len() as int);
    assert(u =~= text::uppered(host));
    assert(loud(host).skip(host.len() as int) =~= ":80"@);
    assert forall|i: int| 0 <= i < host.len() implies text::lower_char(#[trigger] u[i])
        == text::lower_char(host[i]) && !('a' <= loud(host)[i] <= 'z') by {
        text::case_is_that_of_ascii_letters(host, i);
    }
    assert(text::lowered(u) =~= text::lowered(host));
}

/// What was seen on a kept connection is what the answer names: the backend
/// and the number of the request, each nothing where it names none. Without an
/// answer the check fails.
pub proof fn a_kept_connection_tells_backend_and_request(path: Seq<char>, r: Reply)
    ensures
        sticky_told(path, r) is Ok <==> r is Answer,
        r matches Reply::Answer(a) ==> (sticky_told(path, r) matches Ok(s) && {
            &&& http::field_of(text::lossy_text(a.body@), "backend"@) matches Some(x) ==> s.0 == x
            &&& http::field_of(text::lossy_text(a.body@), "backend"@) is None ==> s.0.len() == 0
            &&& http::field_of(text::lossy_text(a.body@), "req"@) matches Some(x) ==> s.1 == x
            &&& http::field_of(text::lossy_text(a.body@), "req"@) is None ==> s.1.len() == 0
        }),
        r is Closed ==> sticky_told(path, r) == Err::<(Seq<char>, Seq<char>), OutcomeView>(
            OutcomeView::Fail("closed before the response to "@ + path),
        ),
        r matches Reply::Failed(f) ==> sticky_told(path, r) == Err::<
            (Seq<char>, Seq<char>),
            OutcomeView,
        >(OutcomeView::Fail(path + ": "@ + f.why@)),
{
    reveal_strlit("");
}

/// `sticky` passes where backend a answered both requests, as the first and
/// the second of one connection, and on nothing else. A second answer from
/// backend b is told apart.
pub proof fn sticky_passes_where_backend_a_answers_both(
    a1: Seq<char>,
    n1: Seq<char>,
    a2: Seq<char>,
    n2: Seq<char>,
    hb: Seq<char>,
)
    ensures
        sticky_verdict(a1, n1, a2, n2, hb) is Pass <==> a1 == "a"@ && n1 == "1"@ && a2 == "a"@ && n2
            == "2"@,
        !(sticky_verdict(a1, n1, a2, n2, hb) is Pass) ==> sticky_verdict(a1, n1, a2, n2, hb) is Fail,
        a2 == "b"@ ==> sticky_verdict(a1, n1, a2, n2, hb)
            == OutcomeView::Fail(
            "the second request went to backend b: routing is per request now, and README \"Router\" and docs/design.md say per connection"@,
        ),
        a2 != "a"@ && a2 != "b"@ ==> sticky_verdict(a1, n1, a2, n2, hb).detail()
            == "backends and request numbers seen: ["@ + ("("@ + text::quoted(a1) + ", "@
            + text::quoted(n1) + ")"@) + ", "@ + ("("@ + text::quoted(a2) + ", "@ + text::quoted(n2)
            + ")"@) + "]"@,
{
    reveal_strlit("a");
    reveal_strlit("b");
    assert("a"@[0] == 'a' && "b"@[0] == 'b');
}

/// `streaming` passes where the second line came and the first came in less
/// than a second, and on nothing else.
pub proof fn streaming_passes_where_the_first_line_is_not_held_back(
    all: Seq<u8>,
    first: u128,
    end: u128,
)
    ensures
        streaming_verdict(all, first, end) is Pass <==> text::has(
            text::lossy_text(all),
            "second\n"@,
        ) && first < 1_000_000_000,
        !(streaming_verdict(all, first, end) is Pass) ==> streaming_verdict(all, first, end) is Fail,
        !text::has(text::lossy_text(all), "second\n"@) ==> streaming_verdict(
            all,
            first,
            end,
        ).detail() == "`second` never arrived: "@ + text::quoted(text::lossy_text(all)),
        has_first(all) <==> text::has(text::lossy_text(all), "first\n"@),
{
}

/// An upgrade goes on where it was answered with a 101, and on nothing else;
/// otherwise the check fails.
pub proof fn upgrades_go_on_after_a_101(r: Reply)
    ensures
        upgrade_refused(r) is None <==> (r matches Reply::Answer(a) && a.status == 101),
        upgrade_refused(r) matches Some(o) ==> o is Fail,
        r matches Reply::Answer(a) ==> (upgrade_refused(r) matches Some(o) ==> o.detail()
            == "answered "@ + probe::told(a) + ", not 101"@),
        r is Closed ==> upgrade_refused(r) == Some(OutcomeView::Fail("closed with no response"@)),
        r matches Reply::Failed(f) ==> upgrade_refused(r) == Some(
            OutcomeView::Fail("response"@ + ": "@ + f.why@),
        ),
{
}

/// The ping so many times over, up to three times.
pub open spec fn echoes(ping: Seq<char>, round: u64) -> Seq<char> {
    if round == 1 {
        ping
    } else if round == 2 {
        ping + ping
    } else {
        ping + ping + ping
    }
}

/// A pipe passes in its third round, once three pings came back and nothing
/// else did. In the rounds before, a ping is sent once those that were sent
/// came back. Other bytes are read on for five seconds, as long as they are no
/// more than what is to come back; then the check fails.
pub proof fn a_pipe_passes_after_three_echoes(p: Pipe, got: Seq<u8>, elapsed: u128)
    requires
        1 <= p.round <= 3,
    ensures
        ({
            let want = echoes(p.ping@, p.round);
            let back = text::lossy_text(got) == want;
            let over = elapsed > 5_000_000_000 || got.len() > encode_utf8(want).len();
            &&& p.next(got, elapsed) is Ping <==> back && p.round < 3
            &&& (p.next(got, elapsed) matches PipeStepView::Over(o) && o is Pass) <==> back
                && p.round == 3
            &&& (p.next(got, elapsed) matches PipeStepView::Over(o) && o is Fail) <==> !back && over
            &&& p.next(got, elapsed) is Read <==> !back && !over
            &&& !back && over ==> p.next(got, elapsed) == PipeStepView::Over(
                OutcomeView::Fail(
                    "echo round "@ + text::decimal(p.round as nat) + ": got "@ + text::quoted(
                        text::lossy_text(got),
                    ),
                ),
            )
        }),
{
    reveal_with_fuel(repeated, 4);
    assert(repeated(p.ping@, 1) =~= p.ping@);
    assert(repeated(p.ping@, 2) =~= p.ping@ + p.ping@);
    assert(repeated(p.ping@, 3) =~= p.ping@ + p.ping@ + p.ping@);
}

/// A ping names the run and ends its line.
pub proof fn a_ping_names_the_run(id: Seq<char>, other: Seq<char>)
    ensures
        ping_of(id) == "ping "@ + id + " both ways\n"@,
        ping_of(id) == ping_of(other) ==> id == other,
{
    reveal_strlit("ping ");
    reveal_strlit(" both ways\n");
    if ping_of(id) == ping_of(other) {
        assert(ping_of(id).len() == id.len() + 16 && ping_of(other).len() == other.len() + 16);
        assert(id =~= ping_of(id).subrange(5, 5 + id.len() as int));
        assert(other =~= ping_of(other).subrange(5, 5 + id.len() as int));
    }
}

/// `large-body` passes on an answer from backend a that got eight mebibytes,
/// and on nothing else.
pub proof fn large_body_passes_where_all_of_it_came(r: Reply, elapsed: u128)
    ensures
        large_body_verdict(r, elapsed) is Pass <==> (r matches Reply::Answer(a) && http::field_of(
            text::lossy_text(a.body@),
            "got"@,
        ) == Some("8388608"@) && http::field_of(text::lossy_text(a.body@), "backend"@) == Some(
            "a"@,
        )),
        !(large_body_verdict(r, elapsed) is Pass) ==> large_body_verdict(r, elapsed) is Fail,
        r matches Reply::Answer(a) ==> (large_body_verdict(r, elapsed) is Fail
            ==> large_body_verdict(r, elapsed).detail() == probe::told(a)),
        r is Closed ==> large_body_verdict(r, elapsed).detail() == "closed with no response"@,
        r matches Reply::Failed(f) ==> large_body_verdict(r, elapsed).detail() == "response"@ + ": "@
            + f.why@,
{
    reveal_strlit("8388608");
    reveal_with_fuel(text::decimal, 8);
    assert(text::decimal(8388608) =~= "8388608"@);
}

/// The head that `head-limit` sends is longer than the router takes.
pub proof fn a_long_head_is_longer_than_the_router_takes()
    ensures
        LONG_HEAD > router::HEAD_LIMIT,
        LONG_HEAD == 17_408,
        router::HEAD_LIMIT == 16_384,
        LARGE == 8 * 1024 * 1024,
        MANY == 50,
        ROUNDS == 3,
{
}

/// Such a head is filled up line by line, each with its number and a hundred
/// letters.
pub proof fn a_long_head_is_filled_line_by_line(host: Seq<char>, k: nat)
    ensures
        head_start(host) == "GET / HTTP/1.1\r\nHost: "@ + host + "\r\n"@,
        pad_lines(0).len() == 0,
        pad_lines(k + 1) == pad_lines(k) + ("X-Pad-"@ + text::decimal(k) + ": "@ + padding()
            + "\r\n"@),
        padding().len() == 100,
        forall|i: int| 0 <= i < 100 ==> #[trigger] padding()[i] == 'a',
{
    assert(pad_lines(k + 1) =~= pad_lines(k) + ("X-Pad-"@ + text::decimal(k) + ": "@ + padding()
        + "\r\n"@));
}

/// `head-limit` passes where the connection was closed without a byte and the
/// backend saw no request, and on nothing else.
pub proof fn head_limit_passes_where_nothing_went_on(
    sent: nat,
    came: Result<Vec<u8>, String>,
    before: u64,
    after: u64,
)
    ensures
        head_limit_verdict(sent, came, before, after) is Pass <==> (came matches Ok(b) && b@.len()
            == 0) && before == after,
        !(head_limit_verdict(sent, came, before, after) is Pass) ==> head_limit_verdict(
            sent,
            came,
            before,
            after,
        ) is Fail,
        came matches Ok(b) ==> (b@.len() == 0 && before != after ==> head_limit_verdict(
            sent,
            came,
            before,
            after,
        ) == OutcomeView::Fail("closed, but the backend saw a request"@)),
        came matches Ok(b) ==> (0 < b@.len() <= 120 ==> head_limit_verdict(
            sent,
            came,
            before,
            after,
        ) == OutcomeView::Fail("answered: "@ + text::quoted(text::lossy_text(b@)))),
        came matches Ok(b) ==> (b@.len() > 120 ==> head_limit_verdict(sent, came, before, after)
            == OutcomeView::Fail(
            "answered: "@ + text::quoted(text::lossy_text(b@.subrange(0, 120))),
        )),
{
    if let Ok(b) = came {
        if b@.len() > 120 {
            assert(b@.take(120) =~= b@.subrange(0, 120));
        }
    }
}

/// A dead backend passes where the connection was closed or reset without a
/// response, and on nothing else. The router's own 404, and a failure that is
/// no reset, are looked at again; every other answer fails.
pub proof fn a_dead_backend_passes_where_nothing_answers(
    host: Seq<char>,
    dead: Seq<char>,
    r: Reply,
)
    ensures
        (dead_look(host, dead, r) matches Ok(o) && o is Pass) <==> r is Closed || (r matches Reply::Failed(
            f,
        ) && f.reset),
        dead_look(host, dead, r) is Err <==> (r matches Reply::Failed(f) && !f.reset) || (
        r matches Reply::Answer(a) && a.status == 404 && text::has(
            text::lossy_text(a.body@),
            "no route for host"@,
        )),
        (dead_look(host, dead, r) matches Ok(o) && !(o is Pass)) ==> dead_look(host, dead, r)->Ok_0
            is Fail,
        r matches Reply::Failed(f) ==> (!f.reset ==> dead_look(host, dead, r) == Err::<
            OutcomeView,
            Seq<char>,
        >(f.why@)),
{
}

/// A headless Service's own host goes on where it is the router's own 404, and
/// on nothing else.
pub proof fn a_headless_route_is_the_routers_404(host: Seq<char>, r: Reply)
    ensures
        headless_own(host, r) is None <==> (r matches Reply::Answer(a) && a.status == 404
            && text::has(text::lossy_text(a.body@), "no route for host"@)),
        headless_own(host, r) matches Some(o) ==> o is Fail,
        r matches Reply::Failed(f) ==> headless_own(host, r) == Some(
            OutcomeView::Fail(host + ": "@ + f.why@),
        ),
        r is Closed ==> headless_own(host, r) == Some(
            OutcomeView::Fail(host + ": closed with no response, expected the router's 404"@),
        ),
{
}

/// `headless` passes where the other host is answered with status 200 by a
/// backend that names itself, and on nothing else.
pub proof fn headless_passes_where_the_others_are_served(
    host: Seq<char>,
    other: Seq<char>,
    settle: u128,
    r: Reply,
)
    ensures
        headless_verdict(host, other, settle, r) is Pass <==> (r matches Reply::Answer(a) && a.status
            == 200 && http::field_of(text::lossy_text(a.body@), "backend"@) is Some),
        !(headless_verdict(host, other, settle, r) is Pass) ==> headless_verdict(
            host,
            other,
            settle,
            r,
        ) is Fail,
        r matches Reply::Failed(f) ==> headless_verdict(host, other, settle, r).detail() == other
            + ": "@ + f.why@,
        r is Closed ==> headless_verdict(host, other, settle, r).detail()
            == "the other routes broke: "@ + other + " closed with no response"@,
{
}

/// `route-update` and `backendref` pass where the host came to be served, and
/// otherwise fail with what went wrong.
pub proof fn moved_hosts_pass_where_they_are_served(
    host: Seq<char>,
    direct: Seq<char>,
    took: Result<u128, String>,
)
    ensures
        update_verdict(host, took) is Pass <==> took is Ok,
        backendref_verdict(host, direct, took) is Pass <==> took is Ok,
        took matches Err(e) ==> update_verdict(host, took) == OutcomeView::Fail(e@),
        took matches Err(e) ==> backendref_verdict(host, direct, took) == OutcomeView::Fail(e@),
        took matches Ok(t) ==> update_verdict(host, took).detail() == host
            + " moved from backend a to b after "@ + text::decimal(t as nat / 1_000_000) + " ms"@,
{
}

/// Two backends take turns over many hosts, backend a first.
pub proof fn backends_take_turns(i: nat)
    ensures
        turn_of(0) == "a"@,
        turn_of(i) == "a"@ <==> turn_of(i + 1) == "b"@,
        turn_of(i + 2) == turn_of(i),
        turn_of(i) == "a"@ || turn_of(i) == "b"@,
{
    reveal_strlit("a");
    reveal_strlit("b");
    assert("a"@[0] == 'a' && "b"@[0] == 'b');
}

/// One of many hosts is right where the answer names its backend and the host
/// itself, and on nothing else.
pub proof fn one_of_many_is_right_where_its_backend_names_it(
    host: Seq<char>,
    backend: Seq<char>,
    r: Reply,
)
    ensures
        many_wrong(host, backend, r) is None <==> (r matches Reply::Answer(a) && http::field_of(
            text::lossy_text(a.body@),
            "backend"@,
        ) == Some(backend) && http::field_of(text::lossy_text(a.body@), "host"@) == Some(host)),
        r matches Reply::Answer(a) ==> (many_wrong(host, backend, r) matches Some(s) ==> s == host
            + ": "@ + probe::seen(r)),
        r is Closed ==> many_wrong(host, backend, r) == Some(host + ": Ok(None)"@),
        r matches Reply::Failed(f) ==> many_wrong(host, backend, r) == Some(
            host + ": Err("@ + f.debug@ + ")"@,
        ),
{
}

/// Whether the reply for host `i` shows it served right.
pub open spec fn is_right(
    hosts: Seq<(Seq<char>, Seq<char>)>,
    replies: Seq<Reply>,
    i: int,
) -> bool {
    &&& 0 <= i < replies.len()
    &&& replies[i] matches Reply::Answer(a) && {
        &&& http::field_of(text::lossy_text(a.body@), "backend"@) == Some(hosts[i].1)
        &&& http::field_of(text::lossy_text(a.body@), "host"@) == Some(hosts[i].0)
    }
}

/// The hosts that stay pending after a round are those without a right reply,
/// and no others.
pub proof fn hosts_stay_pending_until_they_are_right(
    hosts: Seq<(Seq<char>, Seq<char>)>,
    replies: Seq<Reply>,
    n: nat,
    last: Seq<char>,
)
    requires
        n <= hosts.len(),
    ensures
        forall|h: (Seq<char>, Seq<char>)| #[trigger]
            wrong_hosts(hosts, replies, n).contains(h) <==> exists|i: int|
                0 <= i < n && #[trigger] hosts[i] == h && !is_right(hosts, replies, i),
        (forall|i: int| 0 <= i < n ==> #[trigger] is_right(hosts, replies, i)) ==> wrong_hosts(
            hosts,
            replies,
            n,
        ).len() == 0 && last_wrong(hosts, replies, n, last) == last,
        (forall|i: int| 0 <= i < n ==> !#[trigger] is_right(hosts, replies, i)) ==> wrong_hosts(
            hosts,
            replies,
            n,
        ) == hosts.take(n as int),
        0 < n <= replies.len() && !is_right(hosts, replies, n - 1) ==> Some(
            last_wrong(hosts, replies, n, last),
        ) == many_wrong(hosts[n - 1].0, hosts[n - 1].1, replies[n - 1]),
    decreases n,
{
    let w = wrong_hosts(hosts, replies, n);
    if n == 0 {
        assert(w =~= hosts.take(0));
    } else {
        let m = (n - 1) as nat;
        hosts_stay_pending_until_they_are_right(hosts, replies, m, last);
        let b = wrong_hosts(hosts, replies, m);
        let h0 = hosts[n - 1];
        assert(is_right(hosts, replies, n - 1) <==> n <= replies.len() && many_wrong(
            h0.0,
            h0.1,
            replies[n - 1],
        ) is None);
        assert forall|h: (Seq<char>, Seq<char>)| #[trigger] w.contains(h) <==> exists|i: int|
            0 <= i < n && #[trigger] hosts[i] == h && !is_right(hosts, replies, i) by {
            if w.contains(h) {
                let k = choose|k: int| 0 <= k < w.len() && w[k] == h;
                if !is_right(hosts, replies, n - 1) && k == b.len() {
                    assert(hosts[n - 1] == h);
                } else {
                    assert(b[k] == h);
                    assert(b.contains(h));
                    let i = choose|i: int|
                        0 <= i < m && #[trigger] hosts[i] == h && !is_right(hosts, replies, i);
                    assert(hosts[i] == h);
                }
            }
            if exists|i: int|
                0 <= i < n && #[trigger] hosts[i] == h && !is_right(hosts, replies, i) {
                let i = choose|i: int|
                    0 <= i < n && #[trigger] hosts[i] == h && !is_right(hosts, replies, i);
                if i == n - 1 {
                    assert(w[b.len() as int] == h);
                } else {
                    assert(b.contains(h));
                    let k = choose|k: int| 0 <= k < b.len() && b[k] == h;
                    assert(w[k] == h);
                }
            }
        }
        if forall|i: int| 0 <= i < n ==> !#[trigger] is_right(hosts, replies, i) {
            assert(!is_right(hosts, replies, n - 1));
            assert(w =~= hosts.take(n as int));
        }
        if forall|i: int| 0 <= i < n ==> #[trigger] is_right(hosts, replies, i) {
            assert(is_right(hosts, replies, n - 1));
        }
    }
}

/// `many-hosts` passes where no host is pending, and on nothing else; the
/// failure says how many are, and what was seen last.
pub proof fn many_hosts_pass_where_none_is_pending(
    pending: nat,
    wait: u128,
    last: Seq<char>,
    elapsed: u128,
)
    ensures
        many_verdict(pending, wait, last, elapsed) is Pass <==> pending == 0,
        pending > 0 ==> many_verdict(pending, wait, last, elapsed) == OutcomeView::Fail(
            text::decimal(pending) + " of "@ + text::decimal(50)
                + " hosts not served right after "@ + text::decimal(wait as nat / 1_000_000_000)
                + " s; last: "@ + last,
        ),
{
}

/// How many connections are opened at once: a third of what the open-file
/// limit leaves beside 64, but no fewer than 8 and no more than 200; 200 where
/// there is no limit.
pub proof fn connections_are_a_third_of_the_limit(fds: u64)
    ensures
        concurrency(None) == 200,
        8 <= concurrency(Some(fds)) <= 200,
        fds < 88 ==> concurrency(Some(fds)) == 8,
        fds >= 664 ==> concurrency(Some(fds)) == 200,
        88 <= fds < 664 ==> 3 * concurrency(Some(fds)) <= fds - 64 < 3 * concurrency(Some(fds)) + 3,
{
}

/// One of many connections is right where the answer names its backend, and on
/// nothing else.
pub proof fn a_connection_is_right_where_its_backend_answers(
    host: Seq<char>,
    backend: Seq<char>,
    r: Reply,
)
    ensures
        concurrent_wrong(host, backend, r) is None <==> (r matches Reply::Answer(a)
            && http::field_of(text::lossy_text(a.body@), "backend"@) == Some(backend)),
        r matches Reply::Answer(_) ==> (concurrent_wrong(host, backend, r) matches Some(s) ==> s
            == host + ": "@ + probe::seen(r)),
        r is Closed ==> concurrent_wrong(host, backend, r) == Some(
            host + ": closed with no response"@,
        ),
        r matches Reply::Failed(f) ==> concurrent_wrong(host, backend, r) == Some(
            host + ": "@ + f.why@,
        ),
{
}

/// `concurrent-connections` passes where nothing was wrong, and on nothing
/// else; the failure says how many were and shows the first.
pub proof fn concurrent_connections_pass_where_none_is_wrong(
    ok: nat,
    bad: Seq<Seq<char>>,
    n: nat,
    hosts: nat,
)
    ensures
        concurrent_verdict(ok, bad, n, hosts) is Pass <==> bad.len() == 0,
        bad.len() > 0 ==> concurrent_verdict(ok, bad, n, hosts) == OutcomeView::Fail(
            text::decimal(bad.len()) + " of "@ + text::decimal(n) + " wrong; first: "@ + bad[0],
        ),
{
}

/// A deleted host has what is left of the wait, and never less than a second.
pub proof fn a_deleted_host_has_a_second_at_least(wait: u128, elapsed: u128)
    ensures
        still_left(wait, elapsed) >= 1_000_000_000,
        still_left(wait, elapsed) > 1_000_000_000 ==> still_left(wait, elapsed) + elapsed == wait,
        wait >= elapsed + 1_000_000_000 ==> still_left(wait, elapsed) + elapsed == wait,
{
}

/// The first entries of an object are found under their keys.
proof fn lemma_first_entries(m: Seq<(Seq<char>, JsonTree)>)
    ensures
        m.len() > 0 ==> json::entry(m, m[0].0) == m[0].1,
        m.len() > 1 && m[0].0 != m[1].0 ==> json::entry(m, m[1].0) == m[1].1,
        m.len() > 2 && m[0].0 != m[2].0 && m[1].0 != m[2].0 ==> json::entry(m, m[2].0) == m[2].1,
        m.len() > 3 && m[0].0 != m[3].0 && m[1].0 != m[3].0 && m[2].0 != m[3].0 ==> json::entry(
            m,
            m[3].0,
        ) == m[3].1,
{
    reveal_with_fuel(json::entry, 5);
    if m.len() > 1 {
        let a = m.drop_first();
        assert(a[0] == m[1]);
        if m.len() > 2 {
            let b = a.drop_first();
            assert(a[1] == m[2] && b[0] == m[2]);
            if m.len() > 3 {
                let c = b.drop_first();
                assert(a[2] == m[3] && b[1] == m[3] && c[0] == m[3]);
            }
        }
    }
}

/// The keys of these objects, told apart.
proof fn lemma_object_keys()
    ensures
        "apiVersion"@ != "kind"@,
        "apiVersion"@ != "metadata"@,
        "apiVersion"@ != "spec"@,
        "apiVersion"@ != "subsets"@,
        "kind"@ != "metadata"@,
        "kind"@ != "spec"@,
        "kind"@ != "subsets"@,
        "metadata"@ != "spec"@,
        "metadata"@ != "subsets"@,
        "clusterIP"@ != "ports"@,
        "addresses"@ != "ports"@,
        "name"@ != "port"@,
        "name"@ != "targetPort"@,
        "port"@ != "targetPort"@,
        "name"@ != "protocol"@,
        "port"@ != "protocol"@,
        "targetPort"@ != "protocol"@,
{
    reveal_strlit("apiVersion");
    reveal_strlit("kind");
    reveal_strlit("metadata");
    reveal_strlit("spec");
    reveal_strlit("subsets");
    reveal_strlit("clusterIP");
    reveal_strlit("ports");
    reveal_strlit("addresses");
    reveal_strlit("name");
    reveal_strlit("port");
    reveal_strlit("targetPort");
    reveal_strlit("protocol");
    assert("apiVersion"@[0] == 'a' && "kind"@[0] == 'k' && "metadata"@[0] == 'm' && "spec"@[0]
        == 's' && "subsets"@[1] == 'u');
    assert("clusterIP"@[0] == 'c' && "addresses"@[0] == 'a' && "ports"@[0] == 'p');
    assert("name"@[0] == 'n' && "port"@.len() == 4 && "targetPort"@[0] == 't' && "protocol"@.len()
        == 8);
}

/// A Service that is made has one port, which leads to the same port behind
/// it, and no address of its own choosing; a headless one has the address
/// `None`, so that the router does not resolve it.
#[verifier::spinoff_prover]
#[verifier::rlimit(60)]
pub proof fn services_have_one_port(
    api: Api,
    name: Seq<char>,
    port: u16,
    namespace: Seq<char>,
    asked: u64,
)
    ensures
        ({
            let s = service_tree(api, name, port);
            let h = headless_tree(api, name, port);
            let ports = json::elements(json::member(json::member(s, "spec"@), "ports"@));
            let p = ports[0];
            let q = json::elements(json::member(json::member(h, "spec"@), "ports"@));
            &&& json::member(s, "apiVersion"@) == JsonTree::Text("v1"@)
            &&& json::member(s, "kind"@) == JsonTree::Text("Service"@)
            &&& json::member(s, "metadata"@) == JsonTree::Object(api.meta_members(name))
            &&& ports.len() == 1
            &&& json::number_in(json::member(p, "port"@)) == Some(port as u64)
            &&& json::number_in(json::member(p, "targetPort"@)) == Some(port as u64)
            &&& json::member(p, "name"@) == JsonTree::Text("http"@)
            &&& json::member(p, "protocol"@) == JsonTree::Text("TCP"@)
            &&& json::member(h, "kind"@) == JsonTree::Text("Service"@)
            &&& json::member(h, "metadata"@) == JsonTree::Object(api.meta_members(name))
            &&& json::member(json::member(h, "spec"@), "clusterIP"@) == JsonTree::Text("None"@)
            &&& q.len() == 1
            &&& json::number_in(json::member(q[0], "port"@)) == Some(port as u64)
            &&& json::member(q[0], "protocol"@) == JsonTree::Text("TCP"@)
            &&& router::service_backend_of(namespace, name, asked, h) is Err
            &&& router::service_backend_of(namespace, name, asked, s) is Err
        }),
{
    lemma_object_keys();
    let s = service_tree(api, name, port);
    let h = headless_tree(api, name, port);
    lemma_first_entries(json::pairs(s));
    lemma_first_entries(json::pairs(h));
    assert(json::pairs(s).len() == 4);
    let ss = json::member(s, "spec"@);
    let hs = json::member(h, "spec"@);
    lemma_first_entries(json::pairs(ss));
    lemma_first_entries(json::pairs(hs));
    lemma_first_entries(json::pairs(port_tree(port, true)));
    lemma_first_entries(json::pairs(port_tree(port, false)));
    assert(ss == JsonTree::Object(
        seq![("ports"@, JsonTree::Array(seq![port_tree(port, true)]))],
    ));
    reveal_with_fuel(json::entry, 3);
    assert(json::pairs(ss).drop_first().len() == 0);
    assert(json::member(ss, "clusterIP"@) == JsonTree::Null);
}

/// The Endpoints that are made have one address and one port.
#[verifier::spinoff_prover]
#[verifier::rlimit(60)]
pub proof fn endpoints_have_one_address(api: Api, name: Seq<char>, ip: Seq<char>, port: u16)
    ensures
        ({
            let e = endpoints_tree(api, name, ip, port);
            let sets = json::elements(json::member(e, "subsets"@));
            let a = json::elements(json::member(sets[0], "addresses"@));
            let p = json::elements(json::member(sets[0], "ports"@));
            &&& json::member(e, "apiVersion"@) == JsonTree::Text("v1"@)
            &&& json::member(e, "kind"@) == JsonTree::Text("Endpoints"@)
            &&& json::member(e, "metadata"@) == JsonTree::Object(api.meta_members(name))
            &&& sets.len() == 1
            &&& a.len() == 1
            &&& json::member(a[0], "ip"@) == JsonTree::Text(ip)
            &&& p.len() == 1
            &&& json::number_in(json::member(p[0], "port"@)) == Some(port as u64)
            &&& json::member(p[0], "name"@) == JsonTree::Text("http"@)
            &&& json::member(p[0], "protocol"@) == JsonTree::Text("TCP"@)
        }),
{
    lemma_object_keys();
    let e = endpoints_tree(api, name, ip, port);
    lemma_first_entries(json::pairs(e));
    lemma_first_entries(subset_members(ip, port));
    lemma_first_entries(json::pairs(port_tree(port, false)));
    lemma_first_entries(seq![("ip"@, JsonTree::Text(ip))]);
}

/// Many routes have as many names.
pub proof fn many_routes_have_names_of_their_own(i: nat, j: nat)
    ensures
        many_name_of(i) == many_name_of(j) ==> i == j,
        many_name_of(i) == "m"@ + text::decimal(i),
{
    if many_name_of(i) == many_name_of(j) {
        let k = "m"@.len() as int;
        assert(text::decimal(i) =~= many_name_of(i).skip(k));
        assert(text::decimal(j) =~= many_name_of(j).skip(k));
        text::lemma_decimal_reads_back(i);
        text::lemma_decimal_reads_back(j);
    }
}

/// The router answers the request without a Host with its 400, whatever is
/// routed.
pub proof fn the_request_without_a_host_is_refused(table: Map<Seq<char>, Seq<char>>)
    ensures
        router::host_in_head(encode_utf8(no_host_text())) is None,
        router::answer_to(encode_utf8(no_host_text()), table) == router::AnswerView::Respond(
            encode_utf8(
                "HTTP/1.1 400 Bad Request\r\ncontent-length: 26\r\nconnection: close\r\n\r\nthis router needs a Host\n\n"@,
            ),
        ),
{
    reveal_strlit("GET / HTTP/1.0\r\n\r\n");
    reveal_strlit("GET / HTTP/1.0\r");
    let l1 = "GET / HTTP/1.0\r"@;
    let l2 = seq!['\r'];
    let nl = seq!['\n'];
    let none: Seq<char> = seq![];
    assert(no_host_text() =~= l1 + nl + (l2 + nl + none));
    assert(text::is_white('\r'));
    assert(text::trimmed_start(l2) == text::trimmed_start(l2.drop_first()));
    assert(l2.drop_first() =~= none);
    assert(text::trimmed(l2).len() == 0);
    router::the_first_host_header_decides(l1, l2, none, none, none);
    router::requests_without_a_host_are_refused(encode_utf8(no_host_text()), table);
}

/// The lines of a head, as `http` reads them.
proof fn lemma_head_lines(a: Seq<char>, b: Seq<char>, c: Seq<char>, d: Seq<char>)
    requires
        forall|i: int| 0 <= i < a.len() ==> #[trigger] a[i] != '\n',
        forall|i: int| 0 <= i < b.len() ==> #[trigger] b[i] != '\n',
        forall|i: int| 0 <= i < c.len() ==> #[trigger] c[i] != '\n',
        forall|i: int| 0 <= i < d.len() ==> #[trigger] d[i] != '\n',
    ensures
        ({
            let n = seq!['\r', '\n'];
            let none: Seq<char> = seq![];
            &&& text::lines_of(a + n + (b + n + (c + n + (none + n + none)))) == seq![a, b, c, none]
            &&& text::lines_of(a + n + (b + n + (c + n + (d + n + (none + n + none))))) == seq![
                a,
                b,
                c,
                d,
                none,
            ]
        }),
{
    let n = seq!['\r', '\n'];
    let none: Seq<char> = seq![];
    let t = none + n + none;
    text::lemma_lines_cons(none, none);
    assert(text::lines_of(t) =~= seq![none]);
    text::lemma_lines_cons(c, t);
    text::lemma_lines_cons(b, c + n + t);
    text::lemma_lines_cons(a, b + n + (c + n + t));
    assert(text::lines_of(a + n + (b + n + (c + n + t))) =~= seq![a, b, c, none]);
    text::lemma_lines_cons(d, t);
    text::lemma_lines_cons(c, d + n + t);
    text::lemma_lines_cons(b, c + n + (d + n + t));
    text::lemma_lines_cons(a, b + n + (c + n + (d + n + t)));
    assert(text::lines_of(a + n + (b + n + (c + n + (d + n + t)))) =~= seq![a, b, c, d, none]);
}

/// A text without white space in it has no line feed.
proof fn lemma_solid_line(s: Seq<char>)
    requires
        text::is_solid(s),
    ensures
        forall|i: int| 0 <= i < s.len() ==> #[trigger] s[i] != '\n',
{
    assert(text::is_white('\n'));
}

/// What the request that keeps the connection asks for: the path and the host
/// that it was written for, and not that the connection is closed.
#[verifier::spinoff_prover]
#[verifier::rlimit(60)]
pub proof fn sticky_requests_keep_the_connection(path: Seq<char>, host: Seq<char>)
    requires
        host.len() > 0,
        path.len() > 0,
        text::is_solid(host),
        text::is_solid(path),
    ensures
        ({
            let t = sticky_text(path, host);
            &&& text::words_of(t).len() > 1
            &&& text::words_of(t)[1] == path
            &&& http::header_of(t, "host"@) == Some(host)
            &&& http::header_of(t, "connection"@) is None
        }),
{
    reveal_strlit("GET ");
    reveal_strlit("GET");
    reveal_strlit(" HTTP/1.1\r\nHost: ");
    reveal_strlit("HTTP/1.1");
    reveal_strlit("\r\nUser-Agent: stormlb-test\r\n\r\n");
    reveal_strlit("Host");
    reveal_strlit("User-Agent");
    reveal_strlit("stormlb-test");
    reveal_strlit("host");
    reveal_strlit("connection");
    let n = seq!['\r', '\n'];
    let sp = seq![' '];
    let colon = seq![':', ' '];
    let none: Seq<char> = seq![];
    let a = "GET"@ + sp + path + sp + "HTTP/1.1"@;
    let b = "Host"@ + colon + host;
    let c = "User-Agent"@ + colon + "stormlb-test"@;
    let t = sticky_text(path, host);
    assert(t =~= a + n + (b + n + (c + n + (none + n + none))));
    lemma_solid_line(path);
    lemma_solid_line(host);
    assert forall|i: int| 0 <= i < a.len() implies #[trigger] a[i] != '\n' by {
        if 4 <= i < 4 + path.len() {
            assert(a[i] == path[i - 4]);
        }
    }
    assert forall|i: int| 0 <= i < b.len() implies #[trigger] b[i] != '\n' by {
        if 6 <= i {
            assert(b[i] == host[i - 6]);
        }
    }
    lemma_head_lines(a, b, c, none);
    let lines = text::lines_of(t);
    assert(lines == seq![a, b, c, none]);
    http::lemma_line_value("Host"@, host, "host"@);
    http::lemma_line_value("Host"@, host, "connection"@);
    http::lemma_line_value("User-Agent"@, "stormlb-test"@, "connection"@);
    assert(text::lowered("Host"@) =~= text::lowered("host"@));
    assert(text::lowered("Host"@).len() != text::lowered("connection"@).len());
    assert(text::lowered("User-Agent"@)[0] != text::lowered("connection"@)[0]);
    http::header_lines_are_a_name_and_a_value(none, none, "connection"@);
    http::a_header_is_the_first_line_with_its_name(t, "host"@, 1);
    assert forall|j: int| 1 <= j < 4 implies http::line_value(
        #[trigger] lines[j],
        "connection"@,
    ) is None by {}
    http::a_header_is_the_first_line_with_its_name(t, "connection"@, 4);
    text::lemma_words_cons("GET"@, ' ', path + sp + "HTTP/1.1"@ + n + (b + n + (c + n + (none + n
        + none))));
    text::lemma_words_cons(path, ' ', "HTTP/1.1"@ + n + (b + n + (c + n + (none + n + none))));
    assert(t =~= "GET"@ + sp + (path + sp + "HTTP/1.1"@ + n + (b + n + (c + n + (none + n + none)))));
    assert(path + sp + "HTTP/1.1"@ + n + (b + n + (c + n + (none + n + none))) =~= path + sp + (
    "HTTP/1.1"@ + n + (b + n + (c + n + (none + n + none)))));
}

/// What the request for an upgrade asks for: an upgrade, of the host that it
/// was written for.
#[verifier::spinoff_prover]
#[verifier::rlimit(60)]
pub proof fn upgrade_requests_ask_for_an_upgrade(host: Seq<char>)
    requires
        host.len() > 0,
        text::is_solid(host),
    ensures
        http::header_of(upgrade_text(host), "host"@) == Some(host),
        http::header_of(upgrade_text(host), "upgrade"@) == Some("stormlb-test"@),
        http::header_of(upgrade_text(host), "connection"@) == Some("Upgrade"@),
{
    reveal_strlit("GET /ws HTTP/1.1\r\nHost: ");
    reveal_strlit("GET /ws HTTP/1.1");
    reveal_strlit("\r\nConnection: Upgrade\r\nUpgrade: stormlb-test\r\n\r\n");
    reveal_strlit("Host");
    reveal_strlit("Connection");
    reveal_strlit("Upgrade");
    reveal_strlit("stormlb-test");
    reveal_strlit("host");
    reveal_strlit("connection");
    reveal_strlit("upgrade");
    let n = seq!['\r', '\n'];
    let colon = seq![':', ' '];
    let none: Seq<char> = seq![];
    let a = "GET /ws HTTP/1.1"@;
    let b = "Host"@ + colon + host;
    let c = "Connection"@ + colon + "Upgrade"@;
    let d = "Upgrade"@ + colon + "stormlb-test"@;
    let t = upgrade_text(host);
    assert(t =~= a + n + (b + n + (c + n + (d + n + (none + n + none)))));
    lemma_solid_line(host);
    assert forall|i: int| 0 <= i < b.len() implies #[trigger] b[i] != '\n' by {
        if 6 <= i {
            assert(b[i] == host[i - 6]);
        }
    }
    lemma_head_lines(a, b, c, d);
    let lines = text::lines_of(t);
    assert(lines == seq![a, b, c, d, none]);
    http::lemma_line_value("Host"@, host, "host"@);
    http::lemma_line_value("Host"@, host, "connection"@);
    http::lemma_line_value("Host"@, host, "upgrade"@);
    http::lemma_line_value("Connection"@, "Upgrade"@, "connection"@);
    http::lemma_line_value("Connection"@, "Upgrade"@, "upgrade"@);
    http::lemma_line_value("Upgrade"@, "stormlb-test"@, "upgrade"@);
    assert(text::lowered("Host"@) =~= text::lowered("host"@));
    assert(text::lowered("Connection"@) =~= text::lowered("connection"@));
    assert(text::lowered("Upgrade"@) =~= text::lowered("upgrade"@));
    assert(text::lowered("Host"@).len() != text::lowered("connection"@).len());
    assert(text::lowered("Host"@).len() != text::lowered("upgrade"@).len());
    assert(text::lowered("Connection"@).len() != text::lowered("upgrade"@).len());
    http::a_header_is_the_first_line_with_its_name(t, "host"@, 1);
    http::a_header_is_the_first_line_with_its_name(t, "connection"@, 2);
    assert forall|j: int| 1 <= j < 3 implies http::line_value(#[trigger] lines[j], "upgrade"@) is None by {}
    http::a_header_is_the_first_line_with_its_name(t, "upgrade"@, 3);
}

/// What the head of a large body says: how long the body is, the host that it
/// was written for, and that the connection is to be closed.
#[verifier::spinoff_prover]
#[verifier::rlimit(60)]
pub proof fn large_heads_say_how_long_the_body_is(host: Seq<char>)
    requires
        host.len() > 0,
        text::is_solid(host),
    ensures
        http::header_of(large_text(host), "host"@) == Some(host),
        http::content_length(large_text(host)) == Some(8_388_608nat),
        http::header_of(large_text(host), "connection"@) == Some("close"@),
{
    reveal_strlit("POST /upload HTTP/1.1\r\nHost: ");
    reveal_strlit("POST /upload HTTP/1.1");
    reveal_strlit("\r\nContent-Length: ");
    reveal_strlit("\r\nConnection: close\r\n\r\n");
    reveal_strlit("Host");
    reveal_strlit("Content-Length");
    reveal_strlit("Connection");
    reveal_strlit("close");
    reveal_strlit("host");
    reveal_strlit("content-length");
    reveal_strlit("connection");
    let n = seq!['\r', '\n'];
    let colon = seq![':', ' '];
    let none: Seq<char> = seq![];
    let size = text::decimal(LARGE as nat);
    let a = "POST /upload HTTP/1.1"@;
    let b = "Host"@ + colon + host;
    let c = "Content-Length"@ + colon + size;
    let d = "Connection"@ + colon + "close"@;
    let t = large_text(host);
    text::lemma_decimal_reads_back(LARGE as nat);
    assert forall|i: int| 0 <= i < size.len() implies !text::is_white(#[trigger] size[i]) by {
        assert(text::is_digit(size[i]));
    }
    text::numbers_are_read_from_digits(LARGE as nat, usize::MAX as nat, none);
    assert(t =~= a + n + (b + n + (c + n + (d + n + (none + n + none)))));
    lemma_solid_line(host);
    lemma_solid_line(size);
    assert forall|i: int| 0 <= i < b.len() implies #[trigger] b[i] != '\n' by {
        if 6 <= i {
            assert(b[i] == host[i - 6]);
        }
    }
    assert forall|i: int| 0 <= i < c.len() implies #[trigger] c[i] != '\n' by {
        if 16 <= i {
            assert(c[i] == size[i - 16]);
        }
    }
    lemma_head_lines(a, b, c, d);
    let lines = text::lines_of(t);
    assert(lines == seq![a, b, c, d, none]);
    http::lemma_line_value("Host"@, host, "host"@);
    http::lemma_line_value("Host"@, host, "connection"@);
    http::lemma_line_value("Host"@, host, "content-length"@);
    http::lemma_line_value("Content-Length"@, size, "content-length"@);
    http::lemma_line_value("Content-Length"@, size, "connection"@);
    http::lemma_line_value("Connection"@, "close"@, "connection"@);
    assert(text::lowered("Host"@) =~= text::lowered("host"@));
    assert(text::lowered("Connection"@) =~= text::lowered("connection"@));
    assert(text::lowered("Content-Length"@) =~= text::lowered("content-length"@));
    assert(text::lowered("Host"@).len() != text::lowered("connection"@).len());
    assert(text::lowered("Host"@).len() != text::lowered("content-length"@).len());
    assert(text::lowered("Content-Length"@).len() != text::lowered("connection"@).len());
    http::a_header_is_the_first_line_with_its_name(t, "host"@, 1);
    http::a_header_is_the_first_line_with_its_name(t, "content-length"@, 2);
    assert forall|j: int| 1 <= j < 3 implies http::line_value(#[trigger] lines[j], "connection"@) is None by {}
    http::a_header_is_the_first_line_with_its_name(t, "connection"@, 3);
}

/// How long the checks wait, and how often they look.
pub proof fn checks_wait_this_long()
    ensures
        CHUNK == 65_536,
        ECHO_WAIT == 5_000_000_000,
        CLOSE_WAIT == 5_000_000_000,
        ADDRESS_WAIT == 10_000_000_000,
        ADDRESS_POLL == 500_000_000,
        DIRECT_WAIT == 10_000_000_000,
        http::IO_WAIT == 10_000_000_000,
{
}

/// What the checks of the router's own answers say when they pass, and where
/// something restarted.
pub proof fn own_answers_are_told_in_words(
    r: Reply,
    b: Supervised,
    n: Supervised,
    host: Seq<char>,
)
    ensures
        healthz_crlf_verdict(r) is Pass ==> healthz_crlf_verdict(r).detail()
            == "the head ends in CRLF CRLF"@,
        healthz_claimed_verdict(r) is Pass ==> healthz_claimed_verdict(r).detail()
            == "proxied to backend a"@,
        r matches Reply::Answer(a) ==> (healthz_claimed_verdict(r) is Fail ==> healthz_claimed_verdict(
            r,
        ).detail() == "answered "@ + probe::told(a) + ", not backend a"@),
        host_case_verdict(host, r) is Pass ==> host_case_verdict(host, r).detail() == "Host "@
            + text::quoted(host) + " reached backend a"@,
        ({
            let v = no_restarts_verdict(true, Some(Ok(b)), Ok(n));
            &&& v is Pass ==> v.detail() == "running throughout: "@ + text::decimal(
                n.restarts as nat,
            ) + " restarts, "@ + text::decimal(n.crashes as nat) + " crashes, unchanged"@
            &&& v is Fail ==> v.detail() == "stormlb under stormd was "@ + b.shown()
                + " at the start and is "@ + n.shown() + " now"@
        }),
        no_restarts_verdict(false, None, Ok(n)).detail() == "no stormd here (STORMLB_STORMD=none)"@,
{
}

/// What the checks of routing and of the splice say, with how long it took.
pub proof fn routing_is_told_with_how_long_it_took(
    t: u128,
    end: u128,
    all: Seq<u8>,
    hb: Seq<char>,
    r: Reply,
    p: Pipe,
    got: Seq<u8>,
)
    ensures
        program_verdict(Ok(()), Ok(t)).detail() == "two hosts on two backends, served after "@
            + text::decimal(t as nat / 1_000_000) + " ms"@,
        sticky_verdict("a"@, "1"@, "a"@, "2"@, hb).detail() == "the second request (Host "@ + hb
            + ") stayed on backend a, the same connection: routing is per connection"@,
        streaming_verdict(all, t, end) is Pass ==> streaming_verdict(all, t, end).detail()
            == "`first` after "@ + text::decimal(t as nat / 1_000_000) + " ms, `second` after "@
            + text::decimal(end as nat / 1_000_000) + " ms"@,
        text::has(text::lossy_text(all), "second\n"@) && t >= 1_000_000_000 ==> streaming_verdict(
            all,
            t,
            end,
        ).detail() == "`first` arrived after "@ + text::decimal(t as nat / 1_000_000)
            + " ms: held back until the backend finished (it waits 1.5 s)"@,
        p.next(got, t) matches PipeStepView::Over(o) ==> (o is Pass ==> o.detail()
            == "101, then three echo rounds through the pipe"@),
        large_body_verdict(r, t) is Pass ==> large_body_verdict(r, t).detail() == text::decimal(
            8_388_608,
        ) + " bytes through in "@ + text::decimal(t as nat / 1_000_000) + " ms"@,
{
}

/// What the checks of failure paths say.
pub proof fn failure_paths_are_told_in_words(
    sent: nat,
    b: Vec<u8>,
    e: String,
    k: u64,
    host: Seq<char>,
    other: Seq<char>,
    settle: u128,
    r: Reply,
)
    ensures
        b@.len() == 0 ==> head_limit_verdict(sent, Ok(b), k, k).detail() == text::decimal(sent)
            + " bytes of unterminated head: closed, nothing sent on"@,
        head_limit_verdict(sent, Err(e), k, k).detail() == "still open "@ + text::decimal(5)
            + " s after "@ + text::decimal(sent) + " bytes of head: "@ + e@,
        r is Closed ==> dead_look(host, other, r) == Ok::<OutcomeView, Seq<char>>(
            OutcomeView::Pass(
                host + " -> "@ + other + " (nothing listening): closed with no response"@,
            ),
        ),
        r matches Reply::Failed(f) ==> (f.reset ==> dead_look(host, other, r) == Ok::<
            OutcomeView,
            Seq<char>,
        >(
            OutcomeView::Pass(
                host + " -> "@ + other + " (nothing listening): connection reset, no response"@,
            ),
        )),
        r matches Reply::Answer(a) ==> (if a.status == 404 && text::has(
            text::lossy_text(a.body@),
            "no route for host"@,
        ) {
            dead_look(host, other, r) == Err::<OutcomeView, Seq<char>>("404, not programmed yet"@)
        } else {
            dead_look(host, other, r) == Ok::<OutcomeView, Seq<char>>(
                OutcomeView::Fail(
                    "answered "@ + probe::told(a)
                        + ": README says a dead backend closes with no response; update it"@,
                ),
            )
        }),
        r matches Reply::Answer(a) ==> (headless_own(host, r) matches Some(o) ==> o.detail() == host
            + " answered "@ + probe::told(a) + ", expected the router's 404"@),
        headless_verdict(host, other, settle, r) is Pass ==> headless_verdict(
            host,
            other,
            settle,
            r,
        ).detail() == host + " is a 404 after "@ + text::decimal(settle as nat / 1_000_000_000)
            + " s; "@ + other + " is still served"@,
        r matches Reply::Answer(a) ==> (headless_verdict(host, other, settle, r) is Fail
            ==> headless_verdict(host, other, settle, r).detail() == "the other routes broke: "@
            + other + " answered "@ + probe::told(a)),
{
}

/// What the checks of the table say, with how many there were and how long it
/// took.
pub proof fn the_table_is_told_with_its_numbers(
    host: Seq<char>,
    direct: Seq<char>,
    t: u128,
    wait: u128,
    last: Seq<char>,
    ok: nat,
    n: nat,
    hosts: nat,
)
    ensures
        backendref_verdict(host, direct, Ok(t)).detail() == host + " -> Service svc-c ("@ + direct
            + ") -> backend c after "@ + text::decimal(t as nat / 1_000_000) + " ms"@,
        many_verdict(0, wait, last, t).detail() == text::decimal(50)
            + " hosts, alternating two backends, all right after "@ + text::decimal(
            t as nat / 1_000_000,
        ) + " ms"@,
        concurrent_verdict(ok, seq![], n, hosts).detail() == text::decimal(ok)
            + " concurrent connections over "@ + text::decimal(hosts)
            + " hosts, every one on its own backend"@,
{
}

} // verus!
