//! The L7 half of inbound: a Host-header router over Gateway API HTTPRoutes.
//!
//! **Per connection, not per request.** The router reads one request head,
//! picks the backend from the `Host` header, replays the head and then passes
//! bytes both ways. [`on_read`] says when the head is there, [`answer`] what
//! happens then.
//!
//! **The table is polled, not watched.** A poll that fails leaves the last
//! good table in place ([`Routes::refresh`]).
//!
//! A route's backend is its `storm.io/backend` annotation, verbatim, or else
//! its first rule's first backendRef, resolved to the Service's
//! `clusterIP:port` ([`backend_of`], [`service_backend`]).

use crate::json;
use crate::json::{Json, JsonTree};
use crate::text;
use vstd::hash_map::StringHashMap;
use vstd::prelude::*;
use vstd::slice::slice_subrange;
use vstd::utf8::*;

verus! {

/// The router's section of the configuration.
#[derive(Debug, Clone)]
pub struct RouterCfg {
    /// Where the router listens: an address, or `auto:<port>`.
    pub listen: String,
    /// The apiserver that holds the HTTPRoutes.
    pub apiserver: String,
    /// Seconds between two refreshes of the route table.
    pub poll_secs: u64,
    /// Accept the apiserver's certificate without a trusted CA.
    pub insecure: bool,
}

impl RouterCfg {
    /// How long to sleep between two polls: at least a second.
    pub fn poll_interval(&self) -> (r: u64)
        ensures
            r == (if self.poll_secs < 1 {
                1
            } else {
                self.poll_secs
            }),
            r == poll_secs_of(self.poll_secs),
    {
        if self.poll_secs < 1 {
            1
        } else {
            self.poll_secs
        }
    }
}

/// The seconds between two polls, for the seconds that are configured.
pub open spec fn poll_secs_of(secs: u64) -> u64 {
    if secs < 1 {
        1
    } else {
        secs
    }
}

pub fn default_listen() -> (r: String)
    ensures
        r@ == "0.0.0.0:80"@,
{
    String::from_str("0.0.0.0:80")
}

pub fn default_apiserver() -> (r: String)
    ensures
        r@ == "https://127.0.0.1:6443"@,
{
    String::from_str("https://127.0.0.1:6443")
}

pub fn default_poll() -> (r: u64)
    ensures
        r == 5,
{
    5
}

pub fn default_insecure() -> (r: bool)
    ensures
        r,
{
    true
}

// ---------------------------------------------------------------------------
// Where to listen
// ---------------------------------------------------------------------------

/// The text after the last colon of a listen address.
pub open spec fn port_part(listen: Seq<char>) -> Seq<char> {
    listen.skip(text::find_last(listen, ':') + 1)
}

/// Whether `listen` leaves the address to the node.
pub open spec fn is_auto(listen: Seq<char>) -> bool {
    text::begins(listen, "auto"@)
}

/// Whether an address is this node's to take: not loopback, not link-local
/// (169.254.169.254 is the metadata service's), not the wildcard.
pub open spec fn is_routable(ip: Seq<char>) -> bool {
    &&& !text::begins(ip, "127."@)
    &&& !text::begins(ip, "169.254."@)
    &&& ip != "0.0.0.0"@
}

/// An address and a port, with a colon between.
pub open spec fn with_port(ip: Seq<char>, port: Seq<char>) -> Seq<char> {
    ip + ":"@ + port
}

/// What `listen` resolves to, given the address that the kernel would send
/// from.
pub open spec fn auto_addrs(listen: Seq<char>, ip: Option<Seq<char>>) -> Option<Seq<Seq<char>>> {
    match ip {
        Some(a) => if is_auto(listen) && is_routable(a) {
            Some(
                seq![
                    with_port(a, port_part(listen)),
                    with_port("127.0.0.1"@, port_part(listen)),
                ],
            )
        } else {
            None
        },
        None => None,
    }
}

/// `ip:port`.
fn addr_text(ip: &str, port: &[char]) -> (r: String)
    ensures
        r@ == with_port(ip@, port@),
{
    String::from_str(ip).concat(":").concat(text::text_of(port).as_str())
}

/// The addresses `auto:<port>` binds: the node's routable address and
/// loopback, both on `<port>`. `routed` is the source address that the
/// routing table picks, if there is one.
///
/// `None` where `listen` is not `auto`, or no routable address was found.
pub fn bind_addrs(listen: &str, routed: Option<&str>) -> (r: Option<Vec<String>>)
    ensures
        match r {
            Some(v) => auto_addrs(listen@, text::opt_str(routed)) == Some(text::texts(v@)),
            None => auto_addrs(listen@, text::opt_str(routed)) is None,
        },
{
    if !text::text_begins(listen, "auto") {
        return None;
    }
    match routed {
        None => None,
        Some(ip) => {
            if text::text_begins(ip, "127.") || text::text_begins(ip, "169.254.") || text::same(
                ip,
                "0.0.0.0",
            ) {
                return None;
            }
            let l = text::chars_of(listen);
            let p = text::after_last(l.as_slice(), ':');
            let port = slice_subrange(l.as_slice(), p, l.len());
            assert(port@ =~= port_part(listen@));
            let mut v: Vec<String> = Vec::new();
            v.push(addr_text(ip, port));
            v.push(addr_text("127.0.0.1", port));
            assert(text::texts(v@) =~= seq![
                with_port(ip@, port_part(listen@)),
                with_port("127.0.0.1"@, port_part(listen@)),
            ]);
            Some(v)
        },
    }
}

/// Where to listen, and whether it is the fallback for an `auto` that found
/// no address.
pub struct Listen {
    pub addrs: Vec<String>,
    pub fallback: bool,
}

/// The addresses to bind: what `auto` resolves to; the wildcard where `auto`
/// resolves to nothing; otherwise `listen` as it stands.
pub open spec fn listen_addrs(listen: Seq<char>, ip: Option<Seq<char>>) -> Seq<Seq<char>> {
    match auto_addrs(listen, ip) {
        Some(v) => v,
        None => if is_auto(listen) {
            seq![with_port("0.0.0.0"@, port_part(listen))]
        } else {
            seq![listen]
        },
    }
}

/// The addresses the router binds.
pub fn listen_on(listen: &str, routed: Option<&str>) -> (r: Listen)
    ensures
        text::texts(r.addrs@) == listen_addrs(listen@, text::opt_str(routed)),
        r.fallback == (is_auto(listen@) && auto_addrs(listen@, text::opt_str(routed)) is None),
{
    match bind_addrs(listen, routed) {
        Some(addrs) => Listen { addrs, fallback: false },
        None => {
            let mut addrs: Vec<String> = Vec::new();
            if text::text_begins(listen, "auto") {
                let l = text::chars_of(listen);
                let p = text::after_last(l.as_slice(), ':');
                let port = slice_subrange(l.as_slice(), p, l.len());
                assert(port@ =~= port_part(listen@));
                addrs.push(addr_text("0.0.0.0", port));
                assert(text::texts(addrs@) =~= seq![with_port("0.0.0.0"@, port_part(listen@))]);
                Listen { addrs, fallback: true }
            } else {
                addrs.push(String::from_str(listen));
                assert(text::texts(addrs@) =~= seq![listen@]);
                Listen { addrs, fallback: false }
            }
        },
    }
}

// ---------------------------------------------------------------------------
// The request head
// ---------------------------------------------------------------------------

/// The blank line that ends a head.
pub open spec fn crlf_crlf() -> Seq<u8> {
    seq![13u8, 10u8, 13u8, 10u8]
}

/// Where the head ends: one past its first blank line.
pub open spec fn head_end_of(b: Seq<u8>) -> Option<int> {
    match text::find_from(b, crlf_crlf(), 0) {
        Some(p) => Some(p + 4),
        None => None,
    }
}

/// Where the head in `buf` ends.
pub fn find_head_end(buf: &[u8]) -> (r: Option<usize>)
    ensures
        match r {
            Some(e) => {
                &&& head_end_of(buf@) == Some(e as int)
                &&& text::occurs_at(buf@, crlf_crlf(), e - 4)
                &&& forall|j: int| 0 <= j < e - 4 ==> !text::occurs_at(buf@, crlf_crlf(), j)
            },
            None => {
                &&& head_end_of(buf@) is None
                &&& forall|j: int| !text::occurs_at(buf@, crlf_crlf(), j)
            },
        },
{
    let mut blank: Vec<u8> = Vec::new();
    blank.push(13);
    blank.push(10);
    blank.push(13);
    blank.push(10);
    assert(blank@ =~= crlf_crlf());
    proof {
        text::lemma_find_from(buf@, crlf_crlf(), 0);
    }
    match text::bytes_position(buf, blank.as_slice()) {
        Some(p) => {
            assert(p + 4 <= buf.len());
            Some(p + 4)
        },
        None => None,
    }
}

/// The path that the first line of a request names, without its query.
pub open spec fn path_of(head: Seq<u8>) -> Option<Seq<char>> {
    match text::utf8_text(head.take(text::find(head, 10u8) as int)) {
        Some(line) => {
            let w = text::words_of(line);
            if w.len() > 1 {
                Some(w[1].take(text::find(w[1], '?') as int))
            } else {
                None
            }
        },
        None => None,
    }
}

/// The request path, from the request line.
pub fn request_path(head: &[u8]) -> (r: Option<String>)
    ensures
        text::opt_string(r) == path_of(head@),
{
    let n = text::byte_position(head, 10, 0);
    assert(head@.skip(0) =~= head@);
    let line = slice_subrange(head, 0, n);
    assert(line@ =~= head@.take(n as int));
    match text::utf8(line) {
        None => None,
        Some(s) => {
            let w = text::words(text::chars_of(s).as_slice());
            assert(text::views(w@).len() == w@.len());
            if w.len() > 1 {
                let p = w[1].as_slice();
                assert(p@ == text::views(w@)[1]);
                let q = text::position(p, '?');
                let cut = slice_subrange(p, 0, q);
                assert(cut@ =~= p@.take(q as int));
                Some(text::text_of(cut))
            } else {
                None
            }
        },
    }
}

/// A host as routes name it: lower case, without the port.
pub open spec fn host_name(v: Seq<char>) -> Seq<char> {
    let h = text::lowered(text::trimmed(v));
    let c = text::find_last(h, ':');
    if c >= 0 && text::all_digits(h.skip(c + 1)) {
        h.take(c)
    } else {
        h
    }
}

/// The host that a header line names, where it is a `Host` header.
pub open spec fn host_line(line: Seq<char>) -> Option<Seq<char>> {
    let c = text::find(line, ':') as int;
    if c < line.len() && text::same_nocase(text::trimmed(line.take(c)), "host"@) {
        Some(host_name(line.skip(c + 1)))
    } else {
        None
    }
}

/// The host that the first `Host` header in these lines names. The lines end
/// at a blank one, and at one that is not UTF-8.
pub open spec fn host_in(b: Seq<u8>) -> Option<Seq<char>>
    decreases b.len(),
    via host_in_decreases
{
    let n = text::find(b, 10u8) as int;
    match text::utf8_text(b.take(n)) {
        None => None,
        Some(s) => if text::trimmed(s).len() == 0 {
            None
        } else if host_line(text::trimmed(s)) is Some {
            host_line(text::trimmed(s))
        } else if n < b.len() {
            host_in(b.skip(n + 1))
        } else {
            None
        },
    }
}

#[via_fn]
proof fn host_in_decreases(b: Seq<u8>) {
    text::lemma_find(b, 10u8);
}

/// The host that a request head asks for: its first `Host` header's, after
/// the request line.
pub open spec fn host_in_head(head: Seq<u8>) -> Option<Seq<char>> {
    let n = text::find(head, 10u8) as int;
    if n < head.len() {
        host_in(head.skip(n + 1))
    } else {
        None
    }
}

/// Whether all of `s` is ASCII digits.
fn digits_only(s: &[char]) -> (r: bool)
    ensures
        r == text::all_digits(s@),
{
    let mut i: usize = 0;
    while i < s.len()
        invariant
            i <= s@.len(),
            forall|j: int| 0 <= j < i ==> text::is_digit(#[trigger] s@[j]),
        decreases s.len() - i,
    {
        if !text::digit(s[i]) {
            return false;
        }
        i += 1;
    }
    true
}

/// The host that a `Host` header's value names.
fn host_of_value(v: &[char]) -> (r: String)
    ensures
        r@ == host_name(v@),
{
    let h = text::to_lower(text::trim(v));
    let p = text::after_last(h.as_slice(), ':');
    proof {
        text::lemma_find_last(h@, ':');
    }
    let port = slice_subrange(h.as_slice(), p, h.len());
    assert(port@ =~= h@.skip(p as int));
    if p > 0 && digits_only(port) {
        let host = slice_subrange(h.as_slice(), 0, p - 1);
        assert(host@ =~= h@.take(p - 1));
        text::text_of(host)
    } else {
        text::text_of(h.as_slice())
    }
}

/// The `Host` header's value, lower case, port stripped.
pub fn host_of(head: &[u8]) -> (r: Option<String>)
    ensures
        text::opt_string(r) == host_in_head(head@),
{
    let first = text::byte_position(head, 10, 0);
    assert(head@.skip(0) =~= head@);
    if first == head.len() {
        return None;
    }
    let host = text::chars_of("host");
    let lower_host = text::to_lower(host.as_slice());
    let mut i: usize = first + 1;
    loop
        invariant
            i <= head@.len(),
            host_in_head(head@) == host_in(head@.skip(i as int)),
            lower_host@ == text::lowered("host"@),
        decreases head.len() - i,
    {
        let n = text::byte_position(head, 10, i);
        let raw = slice_subrange(head, i, i + n);
        let ghost b = head@.skip(i as int);
        assert(raw@ =~= b.take(n as int));
        let line = match text::utf8(raw) {
            None => {
                return None;
            },
            Some(s) => text::chars_of(s),
        };
        let t = text::trim(line.as_slice());
        if t.len() == 0 {
            return None;
        }
        let c = text::position(t, ':');
        if c < t.len() {
            let k = slice_subrange(t, 0, c);
            assert(k@ =~= t@.take(c as int));
            let key = text::to_lower(text::trim(k));
            if text::same_chars(key.as_slice(), lower_host.as_slice()) {
                let v = slice_subrange(t, c + 1, t.len());
                assert(v@ =~= t@.skip(c + 1));
                return Some(host_of_value(v));
            }
        }
        if i + n == head.len() {
            return None;
        }
        assert(b.skip(n + 1) =~= head@.skip(i + n + 1));
        i = i + n + 1;
    }
}

/// How long a head may grow without ending: 16 KiB.
pub const HEAD_LIMIT: usize = 16384;

/// What to do after a read.
pub enum HeadStep {
    /// The client closed before its head was complete: nothing to do.
    Closed,
    /// Read on.
    More,
    /// Past the limit without an end: cut the connection off.
    TooLong,
    /// The head is the first so many bytes.
    Complete(usize),
}

/// What a read of `chunk` leads to, after `head`.
pub open spec fn head_step(head: Seq<u8>, chunk: Seq<u8>) -> HeadStep {
    if chunk.len() == 0 {
        HeadStep::Closed
    } else {
        match head_end_of(head + chunk) {
            Some(e) => HeadStep::Complete(e as usize),
            None => if (head + chunk).len() > HEAD_LIMIT {
                HeadStep::TooLong
            } else {
                HeadStep::More
            },
        }
    }
}

/// Takes in what one read brought; an empty `chunk` is the end of the
/// stream.
pub fn on_read(head: &mut Vec<u8>, chunk: &[u8]) -> (r: HeadStep)
    ensures
        final(head)@ == old(head)@ + chunk@,
        r == head_step(old(head)@, chunk@),
        r matches HeadStep::Complete(e) ==> e <= final(head)@.len() && head_end_of(final(head)@)
            == Some(e as int),
{
    let ghost before = head@;
    head.extend_from_slice(chunk);
    assert(head@ =~= before + chunk@);
    if chunk.len() == 0 {
        return HeadStep::Closed;
    }
    match find_head_end(head.as_slice()) {
        Some(e) => HeadStep::Complete(e),
        None => if head.len() > HEAD_LIMIT {
            HeadStep::TooLong
        } else {
            HeadStep::More
        },
    }
}

// ---------------------------------------------------------------------------
// The route table
// ---------------------------------------------------------------------------

/// hostname -> `host:port` to dial.
pub struct RouteTable {
    routes: StringHashMap<String>,
}

impl View for RouteTable {
    type V = Map<Seq<char>, Seq<char>>;

    closed spec fn view(&self) -> Map<Seq<char>, Seq<char>> {
        self.routes@.map_values(|b: String| b@)
    }
}

impl RouteTable {
    /// The table of no routes.
    pub fn new() -> (r: RouteTable)
        ensures
            r@ == Map::<Seq<char>, Seq<char>>::empty(),
    {
        let r = RouteTable { routes: StringHashMap::new() };
        assert(r@ =~= Map::empty());
        r
    }

    /// Routes `host` to `backend`, in place of what it was routed to.
    pub fn insert(&mut self, host: String, backend: String)
        ensures
            final(self)@ == old(self)@.insert(host@, backend@),
    {
        self.routes.insert(host, backend);
        assert(self@ =~= old(self)@.insert(host@, backend@));
    }

    /// The backend of `host`, where a route claims it.
    pub fn get(&self, host: &str) -> (r: Option<&str>)
        ensures
            text::opt_str(r) == (if self@.contains_key(host@) {
                Some(self@[host@])
            } else {
                None
            }),
    {
        match self.routes.get(host) {
            Some(b) => Some(b.as_str()),
            None => None,
        }
    }

    /// How many hosts are routed.
    pub fn len(&self) -> (r: usize)
        ensures
            r == self@.dom().len(),
    {
        assert(self@.dom() =~= self.routes@.dom());
        self.routes.len()
    }
}

// ---------------------------------------------------------------------------
// The router's answer
// ---------------------------------------------------------------------------

/// What becomes of a connection once its head is there.
pub enum Answer {
    /// The router answers itself, and closes.
    Respond(Vec<u8>),
    /// Dial this backend, replay the head, pass bytes both ways.
    Forward(String),
}

/// What an answer is.
pub enum AnswerView {
    Respond(Seq<u8>),
    Forward(Seq<char>),
}

impl View for Answer {
    type V = AnswerView;

    open spec fn view(&self) -> AnswerView {
        match self {
            Answer::Respond(b) => AnswerView::Respond(b@),
            Answer::Forward(s) => AnswerView::Forward(s@),
        }
    }
}

/// The answer to a request without a `Host`.
pub open spec fn bad_request_text() -> Seq<char> {
    "HTTP/1.1 400 Bad Request\r\ncontent-length: 26\r\nconnection: close\r\n\r\nthis router needs a Host\n\n"@
}

/// A plain text answer, with the length of its body in bytes.
pub open spec fn plain_text(status: Seq<char>, body: Seq<char>) -> Seq<char> {
    status + "\r\ncontent-type: text/plain\r\ncontent-length: "@ + text::decimal(
        encode_utf8(body).len(),
    ) + "\r\nconnection: close\r\n\r\n"@ + body
}

/// The router's own liveness answer.
pub open spec fn alive_text() -> Seq<char> {
    plain_text("HTTP/1.1 200 OK"@, "router alive\n"@)
}

/// The answer for a host that no route claims; it names the host.
pub open spec fn not_found_text(host: Seq<char>) -> Seq<char> {
    plain_text("HTTP/1.1 404 Not Found"@, "no route for host "@ + host + "\n"@)
}

/// What becomes of a connection with this head, under these routes.
pub open spec fn answer_to(head: Seq<u8>, table: Map<Seq<char>, Seq<char>>) -> AnswerView {
    match host_in_head(head) {
        None => AnswerView::Respond(encode_utf8(bad_request_text())),
        Some(host) => if table.contains_key(host) {
            AnswerView::Forward(table[host])
        } else if path_of(head) == Some("/healthz"@) {
            AnswerView::Respond(encode_utf8(alive_text()))
        } else {
            AnswerView::Respond(encode_utf8(not_found_text(host)))
        },
    }
}

/// Writes a plain text answer.
fn plain_response(status: &str, body: &str) -> (r: String)
    ensures
        r@ == plain_text(status@, body@),
{
    let len = text::decimal_text(body.as_bytes().len() as u128);
    String::from_str(status).concat("\r\ncontent-type: text/plain\r\ncontent-length: ").concat(
        len.as_str(),
    ).concat("\r\nconnection: close\r\n\r\n").concat(body)
}

/// Decides a connection from its request head.
///
/// A host that a route claims goes to its backend, whatever the path. On any
/// other host `/healthz` is the router's own liveness, and the rest is a 404
/// that names the host.
pub fn answer(head: &[u8], table: &RouteTable) -> (r: Answer)
    ensures
        r@ == answer_to(head@, table@),
        r is Forward <==> host_in_head(head@) is Some && table@.contains_key(
            host_in_head(head@)->0,
        ),
        r@ == AnswerView::Respond(
            encode_utf8(
                "HTTP/1.1 200 OK\r\ncontent-type: text/plain\r\ncontent-length: 13\r\nconnection: close\r\n\r\nrouter alive\n"@,
            ),
        ) <==> host_in_head(head@) is Some && !table@.contains_key(host_in_head(head@)->0)
            && path_of(head@) == Some("/healthz"@),
{
    proof {
        unclaimed_hosts_get_the_routers_own_answer(head@, table@);
        requests_without_a_host_are_refused(head@, table@);
        lemma_alive_is_no_refusal();
    }
    let host = match host_of(head) {
        Some(h) => h,
        None => {
            return Answer::Respond(
                "HTTP/1.1 400 Bad Request\r\ncontent-length: 26\r\nconnection: close\r\n\r\nthis router needs a Host\n\n".as_bytes_vec(),
            );
        },
    };
    match table.get(host.as_str()) {
        Some(b) => Answer::Forward(String::from_str(b)),
        None => {
            let live = match request_path(head) {
                Some(p) => text::same(p.as_str(), "/healthz"),
                None => false,
            };
            if live {
                Answer::Respond(
                    plain_response("HTTP/1.1 200 OK", "router alive\n").as_str().as_bytes_vec(),
                )
            } else {
                let body = String::from_str("no route for host ").concat(host.as_str()).concat(
                    "\n",
                );
                Answer::Respond(
                    plain_response(
                        "HTTP/1.1 404 Not Found",
                        body.as_str(),
                    ).as_str().as_bytes_vec(),
                )
            }
        },
    }
}

// ---------------------------------------------------------------------------
// From HTTPRoutes to the table
// ---------------------------------------------------------------------------

/// Where the HTTPRoutes of all namespaces are listed.
pub open spec fn routes_url_text(api: Seq<char>) -> Seq<char> {
    api + "/apis/gateway.networking.k8s.io/v1/httproutes"@
}

/// The URL of the HTTPRoute list.
pub fn routes_url(api: &str) -> (r: String)
    ensures
        r@ == routes_url_text(api@),
{
    String::from_str(api).concat("/apis/gateway.networking.k8s.io/v1/httproutes")
}

/// Where a Service is read.
pub open spec fn service_url_text(api: Seq<char>, namespace: Seq<char>, name: Seq<char>) -> Seq<
    char,
> {
    api + "/api/v1/namespaces/"@ + namespace + "/services/"@ + name
}

/// The URL of a Service.
pub fn service_url(api: &str, namespace: &str, name: &str) -> (r: String)
    ensures
        r@ == service_url_text(api@, namespace@, name@),
{
    String::from_str(api).concat("/api/v1/namespaces/").concat(namespace).concat(
        "/services/",
    ).concat(name)
}

/// A text, or another where there is none.
pub open spec fn text_or(s: Option<Seq<char>>, other: Seq<char>) -> Seq<char> {
    match s {
        Some(t) => t,
        None => other,
    }
}

/// The namespace of a route.
pub open spec fn namespace_of(route: JsonTree) -> Seq<char> {
    text_or(json::text_in(json::member(json::member(route, "metadata"@), "namespace"@)), "default"@)
}

/// `namespace/name` of a route.
pub open spec fn label_of(route: JsonTree) -> Seq<char> {
    namespace_of(route) + "/"@ + text_or(
        json::text_in(json::member(json::member(route, "metadata"@), "name"@)),
        ""@,
    )
}

/// Where a route's traffic goes.
pub enum BackendRef {
    /// To this `host:port`.
    Ready(String),
    /// To this Service's `clusterIP`, on this port.
    Service { namespace: String, name: String, port: u64 },
    /// Nowhere: the route names no backend.
    Missing,
}

/// What a backend reference is.
pub enum BackendRefView {
    Ready(Seq<char>),
    Service { namespace: Seq<char>, name: Seq<char>, port: u64 },
    Missing,
}

impl View for BackendRef {
    type V = BackendRefView;

    open spec fn view(&self) -> BackendRefView {
        match self {
            BackendRef::Ready(b) => BackendRefView::Ready(b@),
            BackendRef::Service { namespace, name, port } => BackendRefView::Service {
                namespace: namespace@,
                name: name@,
                port: *port,
            },
            BackendRef::Missing => BackendRefView::Missing,
        }
    }
}

/// The first backendRef of a route's first rule.
pub open spec fn first_backend_ref(route: JsonTree) -> JsonTree {
    json::first_element(
        json::member(
            json::first_element(json::member(json::member(route, "spec"@), "rules"@)),
            "backendRefs"@,
        ),
    )
}

/// A route's `storm.io/backend` annotation.
pub open spec fn annotation(route: JsonTree) -> Option<Seq<char>> {
    json::text_in(
        json::member(
            json::member(json::member(route, "metadata"@), "annotations"@),
            "storm.io/backend"@,
        ),
    )
}

/// Where a route's traffic goes: its annotation, or else its first
/// backendRef, on port 80 and in the route's own namespace where the
/// reference says neither.
pub open spec fn backend_ref_of(route: JsonTree) -> BackendRefView {
    let bref = first_backend_ref(route);
    match (annotation(route), json::text_in(json::member(bref, "name"@))) {
        (Some(b), _) => BackendRefView::Ready(b),
        (None, Some(name)) => BackendRefView::Service {
            namespace: text_or(
                json::text_in(json::member(bref, "namespace"@)),
                namespace_of(route),
            ),
            name,
            port: match json::number_in(json::member(bref, "port"@)) {
                Some(p) => p,
                None => 80,
            },
        },
        (None, None) => BackendRefView::Missing,
    }
}

/// The namespace of a route.
fn route_namespace(route: &Json) -> (r: String)
    ensures
        r@ == namespace_of(route@),
{
    match json::as_text(json::get(json::get(Some(route), "metadata"), "namespace")) {
        Some(n) => String::from_str(n),
        None => String::from_str("default"),
    }
}

/// `namespace/name` of a route, for the log.
pub fn route_label(route: &Json) -> (r: String)
    ensures
        r@ == label_of(route@),
{
    let ns = route_namespace(route).concat("/");
    match json::as_text(json::get(json::get(Some(route), "metadata"), "name")) {
        Some(n) => ns.concat(n),
        None => ns.concat(""),
    }
}

/// Where a route's traffic goes.
pub fn backend_of(route: &Json) -> (r: BackendRef)
    ensures
        r@ == backend_ref_of(route@),
        r is Ready <==> json::member(
            json::member(json::member(route@, "metadata"@), "annotations"@),
            "storm.io/backend"@,
        ) is Text,
        r@ matches BackendRefView::Service { name, .. } ==> (json::member(
            json::member(route@, "spec"@),
            "rules"@,
        ) matches JsonTree::Array(rules) && rules.len() > 0 && (json::member(
            rules[0],
            "backendRefs"@,
        ) matches JsonTree::Array(refs) && refs.len() > 0 && json::member(refs[0], "name"@)
            == JsonTree::Text(name))),
{
    proof {
        a_route_goes_to_its_first_backend_ref(route@);
    }
    let meta = json::get(Some(route), "metadata");
    if let Some(b) = json::as_text(json::get(json::get(meta, "annotations"), "storm.io/backend")) {
        return BackendRef::Ready(String::from_str(b));
    }
    let rule = json::first(json::get(json::get(Some(route), "spec"), "rules"));
    let bref = json::first(json::get(rule, "backendRefs"));
    match json::as_text(json::get(bref, "name")) {
        None => BackendRef::Missing,
        Some(name) => {
            let port: u64 = match json::as_number(json::get(bref, "port")) {
                Some(p) => p,
                None => 80,
            };
            let namespace = match json::as_text(json::get(bref, "namespace")) {
                Some(n) => String::from_str(n),
                None => route_namespace(route),
            };
            BackendRef::Service { namespace, name: String::from_str(name), port }
        },
    }
}

/// Why a route without a backend is skipped.
pub fn missing_backend() -> (r: String)
    ensures
        r@ == "no storm.io/backend annotation and no backendRef"@,
{
    String::from_str("no storm.io/backend annotation and no backendRef")
}

/// A Service's cluster address, where it has one: not empty and not `None`,
/// which is how a headless Service says that it has none.
pub open spec fn cluster_ip_of(svc: JsonTree) -> Option<Seq<char>> {
    match json::text_in(json::member(json::member(svc, "spec"@), "clusterIP"@)) {
        Some(ip) => if ip.len() > 0 && ip != "None"@ {
            Some(ip)
        } else {
            None
        },
        None => None,
    }
}

/// The cluster address of a Service.
pub fn cluster_ip(svc: &Json) -> (r: Option<String>)
    ensures
        text::opt_string(r) == cluster_ip_of(svc@),
{
    match json::as_text(json::get(json::get(Some(svc), "spec"), "clusterIP")) {
        Some(ip) => if ip.is_empty() || text::same(ip, "None") {
            None
        } else {
            Some(String::from_str(ip))
        },
        None => None,
    }
}

/// Why a Service without a cluster address is of no use.
pub open spec fn no_cluster_ip(namespace: Seq<char>, name: Seq<char>) -> Seq<char> {
    "service "@ + namespace + "/"@ + name + " has no clusterIP"@
}

/// What a Service resolves to.
pub open spec fn service_backend_of(
    namespace: Seq<char>,
    name: Seq<char>,
    port: u64,
    svc: JsonTree,
) -> Result<Seq<char>, Seq<char>> {
    match cluster_ip_of(svc) {
        Some(ip) => Ok(ip + ":"@ + text::decimal(port as nat)),
        None => Err(no_cluster_ip(namespace, name)),
    }
}

/// The view of an outcome in words.
pub open spec fn outcome_text(r: Result<String, String>) -> Result<Seq<char>, Seq<char>> {
    match r {
        Ok(s) => Ok(s@),
        Err(e) => Err(e@),
    }
}

/// Resolves a Service to `clusterIP:port`.
pub fn service_backend(namespace: &str, name: &str, port: u64, svc: &Json) -> (r: Result<
    String,
    String,
>)
    ensures
        outcome_text(r) == service_backend_of(namespace@, name@, port, svc@),
{
    match cluster_ip(svc) {
        Some(ip) => Ok(ip.concat(":").concat(text::decimal_text(port as u128).as_str())),
        None => Err(
            String::from_str("service ").concat(namespace).concat("/").concat(name).concat(
                " has no clusterIP",
            ),
        ),
    }
}

/// How long the apiserver may take to answer, in seconds.
pub const POLL_TIMEOUT_SECS: u64 = 10;

/// What is said of a reply that is not JSON, as the HTTP client words it.
pub fn undecodable() -> (r: String)
    ensures
        r@ == "error decoding response body"@,
{
    String::from_str("error decoding response body")
}

/// What a Service resolves to, from what the apiserver said of it.
pub open spec fn resolved_from(
    namespace: Seq<char>,
    name: Seq<char>,
    port: u64,
    reply: Option<JsonTree>,
) -> Result<Seq<char>, Seq<char>> {
    match reply {
        Some(svc) => service_backend_of(namespace, name, port, svc),
        None => Err("error decoding response body"@),
    }
}

/// Resolves a Service from what the apiserver said of it.
pub fn resolve_service(namespace: &str, name: &str, port: u64, body: &[u8]) -> (r: Result<
    String,
    String,
>)
    ensures
        outcome_text(r) == (match json::json_bytes(body@) {
            Some(svc) => service_backend_of(namespace@, name@, port, svc),
            None => Err("error decoding response body"@),
        }),
        outcome_text(r) == resolved_from(namespace@, name@, port, json::json_bytes(body@)),
{
    match json::parse(body) {
        Some(svc) => service_backend(namespace, name, port, &svc),
        None => Err(undecodable()),
    }
}

/// The hostnames of a route.
pub open spec fn hostnames_of(route: JsonTree) -> Seq<JsonTree> {
    json::elements(json::member(json::member(route, "spec"@), "hostnames"@))
}

/// A table with the first `n` of some hostnames routed to `backend`.
pub open spec fn with_hosts(
    table: Map<Seq<char>, Seq<char>>,
    hosts: Seq<JsonTree>,
    backend: Seq<char>,
    n: nat,
) -> Map<Seq<char>, Seq<char>>
    decreases n,
{
    if n == 0 {
        table
    } else {
        let before = with_hosts(table, hosts, backend, (n - 1) as nat);
        match json::text_in(hosts[n - 1]) {
            Some(h) => before.insert(text::lowered(h), backend),
            None => before,
        }
    }
}

/// The backend that route `i` was resolved to.
pub open spec fn backend_at(backends: Seq<Option<String>>, i: int) -> Option<Seq<char>> {
    if 0 <= i < backends.len() {
        text::opt_string(backends[i])
    } else {
        None
    }
}

/// The table of the first `n` routes. A route without a backend is skipped;
/// where two routes name one host, the later one has it.
pub open spec fn table_upto(routes: Seq<JsonTree>, backends: Seq<Option<String>>, n: nat) -> Map<
    Seq<char>,
    Seq<char>,
>
    decreases n,
{
    if n == 0 {
        Map::empty()
    } else {
        let before = table_upto(routes, backends, (n - 1) as nat);
        let hosts = hostnames_of(routes[n - 1]);
        match backend_at(backends, n - 1) {
            Some(b) => with_hosts(before, hosts, b, hosts.len()),
            None => before,
        }
    }
}

/// The table that a list of routes makes, each resolved to its backend.
pub open spec fn table_of(routes: Seq<JsonTree>, backends: Seq<Option<String>>) -> Map<
    Seq<char>,
    Seq<char>,
> {
    table_upto(routes, backends, routes.len())
}

impl RouteTable {
    /// Routes every hostname of `route` to `backend`.
    pub fn add_route(&mut self, route: &Json, backend: &str)
        ensures
            final(self)@ == with_hosts(
                old(self)@,
                hostnames_of(route@),
                backend@,
                hostnames_of(route@).len(),
            ),
    {
        let ghost hosts = hostnames_of(route@);
        let ghost before = self@;
        if let Some(hs) = json::array(json::get(json::get(Some(route), "spec"), "hostnames")) {
            let mut i: usize = 0;
            while i < hs.len()
                invariant
                    i <= hs@.len(),
                    hs@.len() == hosts.len(),
                    forall|k: int| 0 <= k < hs@.len() ==> (#[trigger] hs@[k])@ == hosts[k],
                    self@ == with_hosts(before, hosts, backend@, i as nat),
                decreases hs.len() - i,
            {
                assert(hs@[i as int]@ == hosts[i as int]);
                if let Some(h) = json::as_text(Some(&hs[i])) {
                    self.insert(text::lower_text(h), String::from_str(backend));
                }
                i += 1;
            }
        }
    }
}

/// One route, as the table is built from it.
pub struct RouteSource {
    /// `namespace/name`, for the log.
    pub label: String,
    pub backend: BackendRef,
}

/// The routes that the apiserver lists.
pub struct RouteList {
    list: Json,
}

impl RouteList {
    /// The routes.
    pub closed spec fn routes(self) -> Seq<JsonTree> {
        json::elements(json::member(self.list@, "items"@))
    }

    /// Reads the list; `None` where the reply is not JSON.
    pub fn read(body: &[u8]) -> (r: Option<RouteList>)
        ensures
            match r {
                Some(l) => json::json_bytes(body@) matches Some(t) && l.routes() == json::elements(
                    json::member(t, "items"@),
                ),
                None => json::json_bytes(body@) is None,
            },
    {
        match json::parse(body) {
            Some(list) => Some(RouteList { list }),
            None => None,
        }
    }

    /// The list in a JSON value.
    pub fn of(list: Json) -> (r: RouteList)
        ensures
            r.routes() == json::elements(json::member(list@, "items"@)),
    {
        RouteList { list }
    }

    /// Where each route's traffic goes.
    pub fn sources(&self) -> (r: Vec<RouteSource>)
        ensures
            r@.len() == self.routes().len(),
            forall|i: int|
                0 <= i < r@.len() ==> {
                    &&& (#[trigger] r@[i]).label@ == label_of(self.routes()[i])
                    &&& r@[i].backend@ == backend_ref_of(self.routes()[i])
                },
    {
        let mut r: Vec<RouteSource> = Vec::new();
        if let Some(items) = json::array(json::get(Some(&self.list), "items")) {
            let mut i: usize = 0;
            while i < items.len()
                invariant
                    i <= items@.len(),
                    i == r@.len(),
                    items@.len() == self.routes().len(),
                    forall|k: int|
                        0 <= k < items@.len() ==> (#[trigger] items@[k])@ == self.routes()[k],
                    forall|k: int|
                        0 <= k < r@.len() ==> {
                            &&& (#[trigger] r@[k]).label@ == label_of(self.routes()[k])
                            &&& r@[k].backend@ == backend_ref_of(self.routes()[k])
                        },
                decreases items.len() - i,
            {
                assert(items@[i as int]@ == self.routes()[i as int]);
                r.push(
                    RouteSource { label: route_label(&items[i]), backend: backend_of(&items[i]) },
                );
                i += 1;
            }
        }
        r
    }

    /// The table, once each route is resolved; a route with no backend in
    /// `backends` is skipped.
    pub fn table(&self, backends: &Vec<Option<String>>) -> (r: RouteTable)
        ensures
            r@ == table_of(self.routes(), backends@),
    {
        let mut t = RouteTable::new();
        if let Some(items) = json::array(json::get(Some(&self.list), "items")) {
            let mut i: usize = 0;
            while i < items.len()
                invariant
                    i <= items@.len(),
                    items@.len() == self.routes().len(),
                    forall|k: int|
                        0 <= k < items@.len() ==> (#[trigger] items@[k])@ == self.routes()[k],
                    t@ == table_upto(self.routes(), backends@, i as nat),
                decreases items.len() - i,
            {
                assert(items@[i as int]@ == self.routes()[i as int]);
                if i < backends.len() {
                    if let Some(b) = &backends[i] {
                        t.add_route(&items[i], b.as_str());
                    }
                }
                i += 1;
            }
        }
        t
    }
}

// ---------------------------------------------------------------------------
// Keeping the table
// ---------------------------------------------------------------------------

/// The table that connections are routed by.
pub struct Routes {
    pub table: RouteTable,
    /// How many hosts the log was last told of.
    pub told: Option<usize>,
}

/// The table after a poll.
pub open spec fn refreshed(
    table: Map<Seq<char>, Seq<char>>,
    polled: Option<Map<Seq<char>, Seq<char>>>,
) -> Map<Seq<char>, Seq<char>> {
    match polled {
        Some(t) => t,
        None => table,
    }
}

/// What the log is told after a poll, where it was told `told` before.
pub open spec fn told_after(
    told: Option<usize>,
    polled: Option<Map<Seq<char>, Seq<char>>>,
) -> Option<usize> {
    match polled {
        Some(t) => {
            let n = t.dom().len() as usize;
            if told == Some(n) {
                None
            } else {
                Some(n)
            }
        },
        None => None,
    }
}

impl Routes {
    /// No routes yet.
    pub fn new() -> (r: Routes)
        ensures
            r.table@ == Map::<Seq<char>, Seq<char>>::empty(),
            r.told is None,
    {
        Routes { table: RouteTable::new(), told: None }
    }

    /// Takes in the outcome of a poll. A poll that failed leaves the last
    /// good table in place. Returns the number of hosts where the log is to
    /// be told of it: when it is not the number of the last good poll.
    pub fn refresh(&mut self, polled: Option<RouteTable>) -> (r: Option<usize>)
        ensures
            match polled {
                Some(t) => {
                    &&& final(self).table@ == t@
                    &&& final(self).told matches Some(n) && n == t@.dom().len()
                    &&& r == (if old(self).told == final(self).told {
                        None
                    } else {
                        final(self).told
                    })
                },
                None => *final(self) == *old(self) && r is None,
            },
            final(self).table@ == refreshed(
                old(self).table@,
                match polled {
                    Some(t) => Some(t@),
                    None => None,
                },
            ),
            r == told_after(
                old(self).told,
                match polled {
                    Some(t) => Some(t@),
                    None => None,
                },
            ),
    {
        match polled {
            Some(t) => {
                let n = t.len();
                self.table = t;
                let news = match self.told {
                    Some(k) => k != n,
                    None => true,
                };
                self.told = Some(n);
                if news {
                    Some(n)
                } else {
                    None
                }
            },
            None => None,
        }
    }
}

// ---------------------------------------------------------------------------
// Laws
// ---------------------------------------------------------------------------

/// Whether a route names `host`, in any case.
pub open spec fn names(route: JsonTree, host: Seq<char>) -> bool {
    exists|j: int|
        0 <= j < hostnames_of(route).len() && is_host(#[trigger] hostnames_of(route)[j], host)
}

/// Whether a hostname entry is `host`, in any case.
pub open spec fn is_host(entry: JsonTree, host: Seq<char>) -> bool {
    json::text_in(entry) matches Some(h) && text::lowered(h) == host
}

/// Whether route `i` claims `host`: it names it and has a backend.
pub open spec fn claims(
    routes: Seq<JsonTree>,
    backends: Seq<Option<String>>,
    i: int,
    host: Seq<char>,
) -> bool {
    backend_at(backends, i) is Some && names(routes[i], host)
}

proof fn lemma_with_hosts(
    table: Map<Seq<char>, Seq<char>>,
    hosts: Seq<JsonTree>,
    backend: Seq<char>,
    n: nat,
    host: Seq<char>,
)
    requires
        n <= hosts.len(),
    ensures
        ({
            let t = with_hosts(table, hosts, backend, n);
            if exists|j: int| 0 <= j < n && is_host(#[trigger] hosts[j], host) {
                t.contains_key(host) && t[host] == backend
            } else {
                t.contains_key(host) == table.contains_key(host) && t[host] == table[host]
            }
        }),
    decreases n,
{
    if n > 0 {
        lemma_with_hosts(table, hosts, backend, (n - 1) as nat, host);
        assert(is_host(hosts[n - 1], host) || !is_host(hosts[n - 1], host));
        if exists|j: int| 0 <= j < n - 1 && is_host(#[trigger] hosts[j], host) {
            let j = choose|j: int| 0 <= j < n - 1 && is_host(#[trigger] hosts[j], host);
            assert(0 <= j < n && is_host(hosts[j], host));
        }
    }
}

proof fn lemma_table_upto(
    routes: Seq<JsonTree>,
    backends: Seq<Option<String>>,
    n: nat,
    host: Seq<char>,
)
    requires
        n <= routes.len(),
    ensures
        ({
            let t = table_upto(routes, backends, n);
            if exists|i: int| 0 <= i < n && claims(routes, backends, i, host) {
                &&& t.contains_key(host)
                &&& exists|i: int|
                    0 <= i < n && #[trigger] claims(routes, backends, i, host) && backend_at(
                        backends,
                        i,
                    ) == Some(t[host]) && forall|k: int|
                        i < k < n ==> !claims(routes, backends, k, host)
            } else {
                !t.contains_key(host)
            }
        }),
    decreases n,
{
    if n > 0 {
        let m = (n - 1) as nat;
        lemma_table_upto(routes, backends, m, host);
        let before = table_upto(routes, backends, m);
        let t = table_upto(routes, backends, n);
        let hosts = hostnames_of(routes[m as int]);
        if let Some(b) = backend_at(backends, m as int) {
            lemma_with_hosts(before, hosts, b, hosts.len(), host);
        }
        if claims(routes, backends, m as int, host) {
            assert(t.contains_key(host));
            assert(backend_at(backends, m as int) == Some(t[host]));
        } else {
            assert(t.contains_key(host) == before.contains_key(host));
            if exists|i: int| 0 <= i < m && claims(routes, backends, i, host) {
                assert(t[host] == before[host]);
                let i = choose|i: int|
                    0 <= i < m && #[trigger] claims(routes, backends, i, host) && backend_at(
                        backends,
                        i,
                    ) == Some(before[host]) && forall|k: int|
                        i < k < m ==> !claims(routes, backends, k, host);
                assert(claims(routes, backends, i, host));
            }
        }
    }
}

/// A host is routed exactly where some route with a backend names it, in any
/// case; and it goes to the backend of the last such route.
pub proof fn table_routes_what_routes_claim(
    routes: Seq<JsonTree>,
    backends: Seq<Option<String>>,
    host: Seq<char>,
)
    ensures
        table_of(routes, backends).contains_key(host) <==> exists|i: int|
            0 <= i < routes.len() && claims(routes, backends, i, host),
        table_of(routes, backends).contains_key(host) ==> exists|i: int|
            0 <= i < routes.len() && #[trigger] claims(routes, backends, i, host) && backend_at(
                backends,
                i,
            ) == Some(table_of(routes, backends)[host]) && forall|k: int|
                i < k < routes.len() ==> !claims(routes, backends, k, host),
{
    lemma_table_upto(routes, backends, routes.len(), host);
}

proof fn lemma_skip_route(routes: Seq<JsonTree>, backends: Seq<Option<String>>, i: int, n: nat)
    requires
        0 <= i < routes.len(),
        routes.len() == backends.len(),
        backends[i] is None,
        n <= routes.len(),
    ensures
        n <= i ==> table_upto(routes, backends, n) == table_upto(
            routes.remove(i),
            backends.remove(i),
            n,
        ),
        n > i ==> table_upto(routes, backends, n) == table_upto(
            routes.remove(i),
            backends.remove(i),
            (n - 1) as nat,
        ),
    decreases n,
{
    if n > 0 {
        lemma_skip_route(routes, backends, i, (n - 1) as nat);
        if n - 1 < i {
            assert(routes.remove(i)[n - 1] == routes[n - 1]);
            assert(backends.remove(i)[n - 1] == backends[n - 1]);
        } else if n - 1 > i {
            assert(routes.remove(i)[n - 2] == routes[n - 1]);
            assert(backends.remove(i)[n - 2] == backends[n - 1]);
        }
    }
}

/// A route that could not be resolved takes no other down: the table is that
/// of the list without it.
pub proof fn an_unresolved_route_is_skipped(
    routes: Seq<JsonTree>,
    backends: Seq<Option<String>>,
    i: int,
)
    requires
        0 <= i < routes.len(),
        routes.len() == backends.len(),
        backends[i] is None,
    ensures
        table_of(routes, backends) == table_of(routes.remove(i), backends.remove(i)),
{
    lemma_skip_route(routes, backends, i, routes.len());
}

/// A claimed host is forwarded whatever its path, `/healthz` too; the router
/// answers 404 or its own liveness only on hosts that no route claims.
pub proof fn claimed_hosts_are_forwarded(head: Seq<u8>, table: Map<Seq<char>, Seq<char>>)
    ensures
        answer_to(head, table) is Forward <==> (host_in_head(head) matches Some(h)
            && table.contains_key(h)),
        host_in_head(head) matches Some(h) ==> table.contains_key(h) ==> answer_to(head, table)
            == AnswerView::Forward(table[h]),
{
}

/// The first head decides: bytes that follow it, in the same read or later,
/// do not move where it ends.
pub proof fn later_bytes_do_not_move_the_head(b: Seq<u8>, more: Seq<u8>, e: int)
    requires
        head_end_of(b) == Some(e),
    ensures
        head_end_of(b + more) == Some(e),
        (b + more).take(e) == b.take(e),
{
    let p = e - 4;
    let c = b + more;
    text::lemma_find_from(b, crlf_crlf(), 0);
    text::lemma_find_from(c, crlf_crlf(), 0);
    assert(c.subrange(p, p + 4) =~= b.subrange(p, p + 4));
    assert(text::occurs_at(c, crlf_crlf(), p));
    match text::find_from(c, crlf_crlf(), 0) {
        Some(q) => {
            if q < p {
                assert(b.subrange(q, q + 4) =~= c.subrange(q, q + 4));
                assert(text::occurs_at(b, crlf_crlf(), q));
            }
        },
        None => {},
    }
    assert((b + more).take(e) =~= b.take(e));
}

/// It does not matter in which pieces a head arrives: after a piece that left
/// it incomplete, the next leads to what both together would have led to.
pub proof fn a_head_may_arrive_in_pieces(head: Seq<u8>, a: Seq<u8>, b: Seq<u8>)
    requires
        head_step(head, a) == HeadStep::More,
        b.len() > 0,
    ensures
        head_step(head + a, b) == head_step(head, a + b),
{
    assert(head + a + b =~= head + (a + b));
}

proof fn lemma_lowered_white(c: char)
    ensures
        text::is_white(text::lower_char(c)) == text::is_white(c),
{
}

proof fn lemma_trimmed_lowered(s: Seq<char>)
    ensures
        text::trimmed(text::lowered(s)) == text::lowered(text::trimmed(s)),
{
    lemma_start_lowered(s);
    lemma_end_lowered(text::trimmed_start(s));
}

proof fn lemma_start_lowered(s: Seq<char>)
    ensures
        text::trimmed_start(text::lowered(s)) == text::lowered(text::trimmed_start(s)),
    decreases s.len(),
{
    if s.len() > 0 {
        lemma_lowered_white(s[0]);
        assert(text::lowered(s)[0] == text::lower_char(s[0]));
        assert(text::lowered(s).drop_first() =~= text::lowered(s.drop_first()));
        if text::is_white(s[0]) {
            lemma_start_lowered(s.drop_first());
        }
    }
}

proof fn lemma_end_lowered(s: Seq<char>)
    ensures
        text::trimmed_end(text::lowered(s)) == text::lowered(text::trimmed_end(s)),
    decreases s.len(),
{
    if s.len() > 0 {
        lemma_lowered_white(s.last());
        assert(text::lowered(s).last() == text::lower_char(s.last()));
        assert(text::lowered(s).drop_last() =~= text::lowered(s.drop_last()));
        if text::is_white(s.last()) {
            lemma_end_lowered(s.drop_last());
        }
    }
}

/// A `Host` is matched whatever the case of its letters.
pub proof fn hosts_are_matched_in_any_case(a: Seq<char>, b: Seq<char>)
    requires
        text::same_nocase(a, b),
    ensures
        host_name(a) == host_name(b),
{
    lemma_trimmed_lowered(a);
    lemma_trimmed_lowered(b);
}

/// A `Host` is matched without its port, and so is one that is an IPv6
/// address in brackets.
pub proof fn hosts_are_matched_without_a_port(host: Seq<char>, port: Seq<char>)
    requires
        host.len() > 0,
        forall|i: int| 0 <= i < host.len() ==> !text::is_white(#[trigger] host[i]),
        (forall|i: int| 0 <= i < host.len() ==> #[trigger] host[i] != ':') || (host[0] == '['
            && host.last() == ']'),
        text::all_digits(port),
    ensures
        host_name(host + ":"@ + port) == host_name(host),
        host_name(host) == text::lowered(host),
{
    reveal_strlit(":");
    let v = host + ":"@ + port;
    let n = host.len() as int;
    assert(text::trimmed(host) == host);
    assert(v[0] == host[0]);
    assert(!text::is_white(v[0]));
    if port.len() > 0 {
        assert(v.last() == port.last());
        assert(text::is_digit(port[port.len() - 1]));
    }
    assert(!text::is_white(v.last()));
    assert(text::trimmed(v) == v);
    let h = text::lowered(v);
    let g = text::lowered(host);
    text::lemma_find_last(h, ':');
    text::lemma_find_last(g, ':');
    let c = text::find_last(g, ':');
    if c >= 0 {
        assert(g[c] == text::lower_char(host[c]));
        assert(host[c] == ':');
        assert(host[n - 1] == ']');
        let rest = g.skip(c + 1);
        assert(rest[rest.len() - 1] == text::lower_char(host[n - 1]));
        assert(!text::is_digit(rest[rest.len() - 1]));
    }
    assert(h[n] == ':');
    assert forall|i: int| n < i < h.len() implies #[trigger] h[i] != ':' by {
        assert(v[i] == port[i - n - 1]);
        assert(text::is_digit(port[i - n - 1]));
        assert(h[i] == text::lower_char(v[i]));
    }
    assert(text::find_last(h, ':') == n);
    assert forall|i: int| 0 <= i < port.len() implies #[trigger] h.skip(n + 1)[i] == port[i] by {
        assert(h.skip(n + 1)[i] == text::lower_char(v[n + 1 + i]));
        assert(v[n + 1 + i] == port[i]);
        assert(text::is_digit(port[i]));
    }
    assert(h.skip(n + 1) =~= port);
    assert(h.take(n) =~= g);
}

/// `auto` leaves the link-local addresses to the metadata service: whatever
/// the routing table says, it binds none of them.
pub proof fn auto_takes_no_link_local_address(
    listen: Seq<char>,
    ip: Option<Seq<char>>,
    i: int,
)
    requires
        is_auto(listen),
        0 <= i < listen_addrs(listen, ip).len(),
    ensures
        !text::begins(listen_addrs(listen, ip)[i], "169.254."@),
{
    reveal_strlit("169.254.");
    reveal_strlit("127.0.0.1");
    reveal_strlit("0.0.0.0");
    reveal_strlit(":");
    let a = listen_addrs(listen, ip)[i];
    let p = "169.254."@;
    if text::begins(a, p) {
        assert(a.subrange(0, 8) =~= p);
        assert forall|k: int| 0 <= k < 8 implies #[trigger] a[k] == p[k] by {
            assert(a.subrange(0, 8)[k] == a[k]);
        }
        assert(a[0] == p[0] && a[1] == p[1]);
        match ip {
            Some(x) => {
                if auto_addrs(listen, ip) is Some && i == 0 {
                    let n = x.len() as int;
                    if n >= 8 {
                        assert(x.subrange(0, 8) =~= p);
                        assert(text::begins(x, p));
                    } else {
                        assert(a[n] == ':');
                        assert(p[n] != ':');
                    }
                } else {
                    assert(a[1] == '2' || a[0] == '0');
                }
            },
            None => {
                assert(a[0] == '0');
            },
        }
        assert(false);
    }
}

/// A route goes where it says. An annotation `storm.io/backend` is taken as it
/// stands, whatever else the route holds. Without one the first element of
/// `backendRefs` of the first element of `rules` decides, whatever follows
/// either: its name, its port or else 80, its namespace or else the route's,
/// or else `default`. Where there is no such element, or it has no name, the
/// route goes nowhere.
pub proof fn a_route_goes_to_its_first_backend_ref(route: JsonTree)
    ensures
        ({
            let meta = json::member(route, "metadata"@);
            let note = json::member(json::member(meta, "annotations"@), "storm.io/backend"@);
            let rules = json::member(json::member(route, "spec"@), "rules"@);
            &&& note matches JsonTree::Text(b) ==> backend_ref_of(route) == BackendRefView::Ready(b)
            &&& !(note is Text) ==> !(backend_ref_of(route) is Ready)
            &&& !(note is Text) && !(rules is Array) ==> backend_ref_of(route) is Missing
            &&& rules matches JsonTree::Array(r) ==> {
                let refs = json::member(r[0], "backendRefs"@);
                &&& !(note is Text) && (r.len() == 0 || !(refs is Array)) ==> backend_ref_of(
                    route,
                ) is Missing
                &&& refs matches JsonTree::Array(b) ==> {
                    let name = json::member(b[0], "name"@);
                    let port = json::member(b[0], "port"@);
                    let space = json::member(b[0], "namespace"@);
                    let own = json::member(meta, "namespace"@);
                    &&& !(note is Text) && r.len() > 0 && (b.len() == 0 || !(name is Text))
                        ==> backend_ref_of(route) is Missing
                    &&& !(note is Text) && r.len() > 0 && b.len() > 0 ==> (name matches JsonTree::Text(
                        n,
                    ) ==> backend_ref_of(route) == BackendRefView::Service {
                        name: n,
                        port: match port {
                            JsonTree::Number(_, Some(k)) => k,
                            _ => 80,
                        },
                        namespace: match (space, own) {
                            (JsonTree::Text(s), _) => s,
                            (_, JsonTree::Text(s)) => s,
                            _ => "default"@,
                        },
                    })
                }
            }
        }),
{
}

/// Rules behind the first, and references behind the first of the first rule,
/// do not matter: routes that agree in the rest go to the same backend.
pub proof fn later_rules_and_references_do_not_matter(
    p: JsonTree,
    q: JsonTree,
    rules: Seq<JsonTree>,
    more: Seq<JsonTree>,
    refs: Seq<JsonTree>,
    others: Seq<JsonTree>,
    first: JsonTree,
    second: JsonTree,
)
    requires
        json::member(p, "metadata"@) == json::member(q, "metadata"@),
        json::member(json::member(p, "spec"@), "rules"@) == JsonTree::Array(seq![first] + rules),
        json::member(json::member(q, "spec"@), "rules"@) == JsonTree::Array(seq![second] + more),
        refs.len() > 0,
        json::member(first, "backendRefs"@) == JsonTree::Array(refs),
        json::member(second, "backendRefs"@) == JsonTree::Array(seq![refs[0]] + others),
    ensures
        backend_ref_of(p) == backend_ref_of(q),
{
    assert((seq![first] + rules)[0] == first);
    assert((seq![second] + more)[0] == second);
    assert((seq![refs[0]] + others)[0] == refs[0]);
}

/// A host that no route claims gets an answer of the router's own. It is the
/// liveness answer exactly where the path is `/healthz`, and for every other
/// path, and for none, the 404 that names the host.
pub proof fn unclaimed_hosts_get_the_routers_own_answer(
    head: Seq<u8>,
    table: Map<Seq<char>, Seq<char>>,
)
    ensures
        host_in_head(head) matches Some(h) ==> !table.contains_key(h) ==> {
            let alive = encode_utf8(
                "HTTP/1.1 200 OK\r\ncontent-type: text/plain\r\ncontent-length: 13\r\nconnection: close\r\n\r\nrouter alive\n"@,
            );
            let body = "no route for host "@ + h + "\n"@;
            let lost = encode_utf8(
                "HTTP/1.1 404 Not Found\r\ncontent-type: text/plain\r\ncontent-length: "@
                    + text::decimal(encode_utf8(body).len())
                    + "\r\nconnection: close\r\n\r\n"@ + body,
            );
            &&& path_of(head) == Some("/healthz"@) ==> answer_to(head, table) == AnswerView::Respond(
                alive,
            )
            &&& path_of(head) != Some("/healthz"@) ==> answer_to(head, table) == AnswerView::Respond(
                lost,
            )
            &&& alive != lost
        },
{
    if let Some(h) = host_in_head(head) {
        let text1 = "HTTP/1.1 200 OK\r\ncontent-type: text/plain\r\ncontent-length: 13\r\nconnection: close\r\n\r\nrouter alive\n"@;
        let body = "no route for host "@ + h + "\n"@;
        let text2 = "HTTP/1.1 404 Not Found\r\ncontent-type: text/plain\r\ncontent-length: "@
            + text::decimal(encode_utf8(body).len()) + "\r\nconnection: close\r\n\r\n"@ + body;
        lemma_alive_text();
        reveal_strlit("HTTP/1.1 404 Not Found");
        reveal_strlit("\r\ncontent-type: text/plain\r\ncontent-length: ");
        reveal_strlit("HTTP/1.1 404 Not Found\r\ncontent-type: text/plain\r\ncontent-length: ");
        assert("HTTP/1.1 404 Not Found"@ + "\r\ncontent-type: text/plain\r\ncontent-length: "@
            =~= "HTTP/1.1 404 Not Found\r\ncontent-type: text/plain\r\ncontent-length: "@);
        assert(not_found_text(h) == text2);
        reveal_strlit(
            "HTTP/1.1 200 OK\r\ncontent-type: text/plain\r\ncontent-length: 13\r\nconnection: close\r\n\r\nrouter alive\n",
        );
        assert(text1[9] == '2' && text2[9] == '4');
        if encode_utf8(text1) == encode_utf8(text2) {
            encode_utf8_decode_utf8(text1);
            encode_utf8_decode_utf8(text2);
            assert(false);
        }
    }
}

/// The liveness answer, in full.
proof fn lemma_alive_text()
    ensures
        alive_text()
            == "HTTP/1.1 200 OK\r\ncontent-type: text/plain\r\ncontent-length: 13\r\nconnection: close\r\n\r\nrouter alive\n"@,
{
    reveal_strlit("HTTP/1.1 200 OK");
    reveal_strlit("\r\ncontent-type: text/plain\r\ncontent-length: ");
    reveal_strlit("\r\nconnection: close\r\n\r\n");
    reveal_strlit("router alive\n");
    reveal_strlit(
        "HTTP/1.1 200 OK\r\ncontent-type: text/plain\r\ncontent-length: 13\r\nconnection: close\r\n\r\nrouter alive\n",
    );
    text::lemma_ascii_len("router alive\n"@);
    reveal_with_fuel(text::decimal, 3);
    assert(text::decimal(13) =~= seq!['1', '3']);
    assert(alive_text()
        =~= "HTTP/1.1 200 OK\r\ncontent-type: text/plain\r\ncontent-length: 13\r\nconnection: close\r\n\r\nrouter alive\n"@);
}

/// A request without a `Host` is a 400, whatever is routed and whatever its
/// path; the length that the answer gives its body is the body's.
pub proof fn requests_without_a_host_are_refused(
    head: Seq<u8>,
    table: Map<Seq<char>, Seq<char>>,
)
    ensures
        host_in_head(head) is None <==> answer_to(head, table) == AnswerView::Respond(
            encode_utf8(
                "HTTP/1.1 400 Bad Request\r\ncontent-length: 26\r\nconnection: close\r\n\r\nthis router needs a Host\n\n"@,
            ),
        ),
        encode_utf8("this router needs a Host\n\n"@).len() == 26,
{
    reveal_strlit("this router needs a Host\n\n");
    text::lemma_ascii_len("this router needs a Host\n\n"@);
    if let Some(h) = host_in_head(head) {
        let bad = "HTTP/1.1 400 Bad Request\r\ncontent-length: 26\r\nconnection: close\r\n\r\nthis router needs a Host\n\n"@;
        reveal_strlit(
            "HTTP/1.1 400 Bad Request\r\ncontent-length: 26\r\nconnection: close\r\n\r\nthis router needs a Host\n\n",
        );
        reveal_strlit("HTTP/1.1 200 OK");
        reveal_strlit("HTTP/1.1 404 Not Found");
        assert(bad[9] == '4' && bad[11] == '0');
        assert(alive_text()[9] == '2');
        assert(not_found_text(h)[11] == '4');
        encode_utf8_decode_utf8(bad);
        encode_utf8_decode_utf8(alive_text());
        encode_utf8_decode_utf8(not_found_text(h));
    }
}

/// The first `Host` header after the request line decides. Its name is matched
/// in any case and with white space around it; a line that is no `Host` header
/// does not matter; a blank line ends the search.
pub proof fn the_first_host_header_decides(
    first: Seq<char>,
    line: Seq<char>,
    rest: Seq<char>,
    name: Seq<char>,
    v: Seq<char>,
)
    requires
        forall|i: int| 0 <= i < first.len() ==> #[trigger] first[i] != '\n',
        forall|i: int| 0 <= i < line.len() ==> #[trigger] line[i] != '\n',
        forall|i: int| 0 <= i < name.len() ==> #[trigger] name[i] != ':',
    ensures
        ({
            let nl = seq!['\n'];
            let head = encode_utf8(first + nl + (line + nl + rest));
            &&& text::trimmed(line) == name + ":"@ + v && text::lowered(text::trimmed(name))
                == "host"@ ==> host_in_head(head) == Some(host_name(v))
            &&& text::trimmed(line) == name + ":"@ + v && text::lowered(text::trimmed(name))
                != "host"@ ==> host_in_head(head) == host_in_head(encode_utf8(first + nl + rest))
            &&& text::trimmed(line) == name && name.len() > 0 ==> host_in_head(head)
                == host_in_head(encode_utf8(first + nl + rest))
            &&& text::trimmed(line).len() == 0 ==> host_in_head(head) is None
            &&& host_in_head(encode_utf8(first)) is None
        }),
{
    let nl = seq!['\n'];
    let head = encode_utf8(first + nl + (line + nl + rest));
    text::lemma_first_line(first, line + nl + rest);
    text::lemma_first_line(first, rest);
    text::lemma_first_line(line, rest);
    text::lemma_only_line(first);
    let t = text::trimmed(line);
    reveal_strlit("host");
    assert(text::lowered("host"@) =~= "host"@);
    reveal_strlit(":");
    if t == name + ":"@ + v {
        let c = name.len() as int;
        assert forall|i: int| 0 <= i < c implies t[i] != ':' by {
            assert(t[i] == name[i]);
        }
        assert(t[c] == ':');
        text::lemma_find_is(t, ':', c);
        assert(t.take(c) =~= name);
        assert(t.skip(c + 1) =~= v);
    } else if t == name {
        text::lemma_find_is(t, ':', t.len() as int);
    }
}

/// A host is what its header says, in lower case and without the white space
/// around it; digits behind its last colon are a port and are left out, and
/// what stands behind a colon and is no number stays.
pub proof fn a_host_loses_its_port_and_nothing_else(v: Seq<char>, h: Seq<char>, d: Seq<char>)
    ensures
        ({
            let t = text::lowered(text::trimmed(v));
            &&& t == h + ":"@ + d && text::all_digits(d) ==> host_name(v) == h
            &&& t == h + ":"@ + d && !text::all_digits(d) && (forall|i: int|
                0 <= i < d.len() ==> #[trigger] d[i] != ':') ==> host_name(v) == t
            &&& (forall|i: int| 0 <= i < t.len() ==> #[trigger] t[i] != ':') ==> host_name(v) == t
        }),
{
    let t = text::lowered(text::trimmed(v));
    reveal_strlit(":");
    text::lemma_find_last(t, ':');
    let c = text::find_last(t, ':');
    if t == h + ":"@ + d && (text::all_digits(d) || forall|i: int|
        0 <= i < d.len() ==> #[trigger] d[i] != ':') {
        let n = h.len() as int;
        assert(t[n] == ':');
        assert forall|i: int| n < i < t.len() implies t[i] != ':' by {
            assert(t[i] == d[i - n - 1]);
            if text::all_digits(d) {
                assert(text::is_digit(d[i - n - 1]));
            }
        }
        assert(c == n);
        assert(t.skip(c + 1) =~= d);
        assert(t.take(c) =~= h);
    }
}

/// The path of a request is the second word of its first line, up to a
/// question mark; without a second word there is none.
pub proof fn the_path_is_the_second_word_without_its_query(line: Seq<char>, rest: Seq<char>)
    requires
        forall|i: int| 0 <= i < line.len() ==> #[trigger] line[i] != '\n',
    ensures
        ({
            let head = encode_utf8(line + seq!['\n'] + rest);
            let w = text::words_of(line);
            &&& w.len() < 2 ==> path_of(head) is None
            &&& w.len() >= 2 ==> (path_of(head) matches Some(p) && {
                &&& p.len() <= w[1].len()
                &&& p == w[1].take(p.len() as int)
                &&& forall|i: int| 0 <= i < p.len() ==> #[trigger] p[i] != '?'
                &&& p.len() < w[1].len() ==> w[1][p.len() as int] == '?'
            })
        }),
{
    text::lemma_first_line(line, rest);
    let w = text::words_of(line);
    if w.len() >= 2 {
        text::lemma_find(w[1], '?');
        let n = text::find(w[1], '?') as int;
        let p = w[1].take(n);
        assert forall|i: int| 0 <= i < p.len() implies #[trigger] p[i] != '?' by {
            assert(p[i] == w[1][i]);
        }
    }
}

/// Whether the four bytes before `e` are CR LF CR LF.
pub open spec fn blank_line_before(b: Seq<u8>, e: int) -> bool {
    &&& 4 <= e <= b.len()
    &&& b[e - 4] == 13
    &&& b[e - 3] == 10
    &&& b[e - 2] == 13
    &&& b[e - 1] == 10
}

proof fn lemma_blank_line(b: Seq<u8>, j: int)
    ensures
        text::occurs_at(b, crlf_crlf(), j) == blank_line_before(b, j + 4),
{
    if text::occurs_at(b, crlf_crlf(), j) {
        let s = b.subrange(j, j + 4);
        assert(s[0] == 13 && s[1] == 10 && s[2] == 13 && s[3] == 10);
    }
    if blank_line_before(b, j + 4) {
        assert(b.subrange(j, j + 4) =~= crlf_crlf());
    }
}

/// What a read leads to: the head is complete as soon as it holds a blank
/// line, and ends behind the first one; without one it is read on for up to 16
/// KiB, and cut off beyond; a read of nothing is the end.
pub proof fn a_head_is_read_to_its_first_blank_line(head: Seq<u8>, chunk: Seq<u8>, e: usize)
    ensures
        ({
            let b = head + chunk;
            &&& head_step(head, chunk) == HeadStep::Closed <==> chunk.len() == 0
            &&& chunk.len() > 0 && blank_line_before(b, e as int) && (forall|j: int|
                j < e ==> !#[trigger] blank_line_before(b, j)) ==> head_step(head, chunk)
                == HeadStep::Complete(e)
            &&& chunk.len() > 0 && (forall|j: int| !#[trigger] blank_line_before(b, j))
                && b.len() > 16384 ==> head_step(head, chunk) == HeadStep::TooLong
            &&& chunk.len() > 0 && (forall|j: int| !#[trigger] blank_line_before(b, j))
                && b.len() <= 16384 ==> head_step(head, chunk) == HeadStep::More
        }),
{
    let b = head + chunk;
    text::lemma_find_from(b, crlf_crlf(), 0);
    match text::find_from(b, crlf_crlf(), 0) {
        Some(k) => {
            lemma_blank_line(b, k);
            assert(blank_line_before(b, k + 4));
            if e < k + 4 {
                lemma_blank_line(b, e - 4);
            }
        },
        None => {
            lemma_blank_line(b, e - 4);
        },
    }
}

/// Where the router listens. Anything that does not begin with `auto` is taken
/// as it stands. With `auto` on a port, which stands behind the last colon, it is this node's address on that port and loopback on it,
/// in this order; the wildcard on that port where no address is known, or it
/// is a loopback or link-local one or the wildcard.
pub proof fn auto_listens_on_the_node_and_on_loopback(
    listen: Seq<char>,
    y: Seq<char>,
    port: Seq<char>,
    ip: Seq<char>,
    x: Seq<char>,
)
    requires
        forall|i: int| 0 <= i < port.len() ==> #[trigger] port[i] != ':',
    ensures
        ({
            let auto = "auto"@ + y + ":"@ + port;
            let any = seq!["0.0.0.0"@ + ":"@ + port];
            &&& !(listen.len() >= 4 && listen[0] == 'a' && listen[1] == 'u' && listen[2] == 't'
                && listen[3] == 'o') ==> listen_addrs(listen, Some(ip)) == seq![listen]
                && listen_addrs(listen, None) == seq![listen]
            &&& listen_addrs(auto, None) == any
            &&& ip == "127."@ + x || ip == "169.254."@ + x || ip == "0.0.0.0"@ ==> listen_addrs(
                auto,
                Some(ip),
            ) == any
            &&& !text::begins(ip, "127."@) && !text::begins(ip, "169.254."@) && ip != "0.0.0.0"@
                ==> listen_addrs(auto, Some(ip)) == seq![
                ip + ":"@ + port,
                "127.0.0.1"@ + ":"@ + port,
            ]
            &&& auto_addrs(listen, None) is None
            &&& auto_addrs(listen, Some(ip)) is Some ==> listen_addrs(listen, Some(ip)).len() == 2
        }),
{
    reveal_strlit(":");
    reveal_strlit("auto");
    reveal_strlit("127.");
    reveal_strlit("169.254.");
    let auto = "auto"@ + y + ":"@ + port;
    let n = 4 + y.len() as int;
    assert(auto.subrange(0, 4) =~= "auto"@);
    assert(is_auto(auto));
    text::lemma_find_last(auto, ':');
    assert(auto[n] == ':');
    assert forall|i: int| n < i < auto.len() implies auto[i] != ':' by {
        assert(auto[i] == port[i - n - 1]);
    }
    assert(text::find_last(auto, ':') == n);
    assert(port_part(auto) =~= port);
    if ip == "127."@ + x {
        assert(ip.subrange(0, 4) =~= "127."@);
    }
    if ip == "169.254."@ + x {
        assert(ip.subrange(0, 8) =~= "169.254."@);
    }
    if is_auto(listen) {
        let s = listen.subrange(0, 4);
        assert(s[0] == 'a' && s[1] == 'u' && s[2] == 't' && s[3] == 'o');
    }
}

/// A Service resolves to its cluster address and the port that was asked for;
/// one without an address, with an empty one or with `None` does not resolve,
/// and the reason names it.
pub proof fn a_service_resolves_to_its_cluster_address(
    namespace: Seq<char>,
    name: Seq<char>,
    port: u64,
    svc: JsonTree,
)
    ensures
        ({
            let ip = json::member(json::member(svc, "spec"@), "clusterIP"@);
            let refused: Result<Seq<char>, Seq<char>> = Err(
                "service "@ + namespace + "/"@ + name + " has no clusterIP"@,
            );
            &&& ip matches JsonTree::Text(a) ==> (if a.len() > 0 && a != "None"@ {
                service_backend_of(namespace, name, port, svc) == Ok::<Seq<char>, Seq<char>>(
                    a + ":"@ + text::decimal(port as nat),
                )
            } else {
                service_backend_of(namespace, name, port, svc) == refused
            })
            &&& !(ip is Text) ==> service_backend_of(namespace, name, port, svc) == refused
        }),
{
}

/// Routes are listed over all namespaces; a Service is read by its name in its
/// namespace.
pub proof fn objects_are_read_where_they_are(
    api: Seq<char>,
    namespace: Seq<char>,
    name: Seq<char>,
)
    ensures
        routes_url_text(api) == api + "/apis/gateway.networking.k8s.io/v1/httproutes"@,
        service_url_text(api, namespace, name).take(api.len() as int) == api,
        service_url_text(api, namespace, name).skip(api.len() as int) == "/api/v1/namespaces/"@
            + namespace + "/services/"@ + name,
{
    let u = service_url_text(api, namespace, name);
    assert(u.take(api.len() as int) =~= api);
    assert(u.skip(api.len() as int) =~= "/api/v1/namespaces/"@ + namespace + "/services/"@ + name);
}

/// The hostname entry `j` of route `i`.
pub open spec fn hostname_at(routes: Seq<JsonTree>, i: int, j: int) -> JsonTree {
    match json::member(json::member(routes[i], "spec"@), "hostnames"@) {
        JsonTree::Array(a) => if 0 <= j < a.len() {
            a[j]
        } else {
            JsonTree::Null
        },
        _ => JsonTree::Null,
    }
}

/// A hostname of a route that was resolved is routed, in lower case, to that
/// route's backend, unless a later route that was resolved has it in any case
/// too; and nothing is routed that no such route names.
pub proof fn hostnames_are_routed_to_the_last_that_has_them(
    routes: Seq<JsonTree>,
    backends: Seq<Option<String>>,
    i: int,
    j: int,
    name: Seq<char>,
    host: Seq<char>,
)
    requires
        backends.len() == routes.len(),
    ensures
        0 <= i < routes.len() && backends[i] is Some && hostname_at(routes, i, j) == JsonTree::Text(
            name,
        ) && (forall|k: int, l: int|
            i < k < routes.len() && backends[k] is Some && (#[trigger] hostname_at(
                routes,
                k,
                l,
            ) matches JsonTree::Text(other)) ==> text::lowered(
                hostname_at(routes, k, l)->Text_0,
            ) != text::lowered(name)) ==> {
            &&& table_of(routes, backends).contains_key(text::lowered(name))
            &&& table_of(routes, backends)[text::lowered(name)] == backends[i]->0@
        },
        table_of(routes, backends).contains_key(host) ==> exists|k: int, l: int|
            0 <= k < routes.len() && backends[k] is Some && (#[trigger] hostname_at(
                routes,
                k,
                l,
            ) matches JsonTree::Text(n) && text::lowered(n) == host),
{
    let low = text::lowered(name);
    table_routes_what_routes_claim(routes, backends, low);
    table_routes_what_routes_claim(routes, backends, host);
    if 0 <= i < routes.len() && backends[i] is Some && hostname_at(routes, i, j) == JsonTree::Text(
        name,
    ) && (forall|k: int, l: int|
        i < k < routes.len() && backends[k] is Some && (#[trigger] hostname_at(
            routes,
            k,
            l,
        ) matches JsonTree::Text(other)) ==> text::lowered(hostname_at(routes, k, l)->Text_0)
            != low) {
        assert(is_host(hostnames_of(routes[i])[j], low));
        assert(claims(routes, backends, i, low));
        let c = choose|c: int|
            0 <= c < routes.len() && #[trigger] claims(routes, backends, c, low) && backend_at(
                backends,
                c,
            ) == Some(table_of(routes, backends)[low]) && forall|k: int|
                c < k < routes.len() ==> !claims(routes, backends, k, low);
        if c > i {
            let l = choose|l: int|
                0 <= l < hostnames_of(routes[c]).len() && is_host(
                    #[trigger] hostnames_of(routes[c])[l],
                    low,
                );
            assert(hostname_at(routes, c, l) == hostnames_of(routes[c])[l]);
            assert(false);
        }
        assert(c == i);
    }
    if table_of(routes, backends).contains_key(host) {
        let c = choose|c: int| 0 <= c < routes.len() && claims(routes, backends, c, host);
        let l = choose|l: int|
            0 <= l < hostnames_of(routes[c]).len() && is_host(
                #[trigger] hostnames_of(routes[c])[l],
                host,
            );
        assert(hostname_at(routes, c, l) == hostnames_of(routes[c])[l]);
    }
}

/// A poll that fails leaves the last good table, and the log, alone; one that
/// succeeds puts its table in place of the last, and the log is told of the
/// number of hosts where that is not what it was told last.
pub proof fn a_failed_poll_leaves_the_table(
    table: Map<Seq<char>, Seq<char>>,
    polled: Map<Seq<char>, Seq<char>>,
    told: Option<usize>,
    n: usize,
)
    ensures
        refreshed(table, None) == table,
        told_after(told, None) is None,
        refreshed(table, Some(polled)) == polled,
        polled.dom().len() == n ==> (told_after(told, Some(polled)) is None <==> told == Some(n)),
        polled.dom().len() == n && told != Some(n) ==> told_after(told, Some(polled)) == Some(n),
{
}

/// The table is polled as often as is configured, and at most once a second.
pub proof fn polls_are_at_least_a_second_apart(secs: u64)
    ensures
        poll_secs_of(secs) >= 1,
        secs >= 1 ==> poll_secs_of(secs) == secs,
        secs == 0 ==> poll_secs_of(secs) == 1,
{
}

/// A route is told in the log by its namespace, or else `default`, and its
/// name.
pub proof fn a_route_is_told_by_its_name(route: JsonTree)
    ensures
        ({
            let meta = json::member(route, "metadata"@);
            let ns = match json::member(meta, "namespace"@) {
                JsonTree::Text(s) => s,
                _ => "default"@,
            };
            let name = match json::member(meta, "name"@) {
                JsonTree::Text(s) => s,
                _ => ""@,
            };
            label_of(route) == ns + "/"@ + name
        }),
{
}

/// A reply that is no JSON resolves to nothing; one that is resolves as the
/// Service in it does.
pub proof fn a_reply_that_is_no_json_does_not_resolve(
    namespace: Seq<char>,
    name: Seq<char>,
    port: u64,
    svc: JsonTree,
)
    ensures
        resolved_from(namespace, name, port, None) == Err::<Seq<char>, Seq<char>>(
            "error decoding response body"@,
        ),
        json::member(json::member(svc, "spec"@), "clusterIP"@) matches JsonTree::Text(a) ==> (a.len()
            > 0 && a != "None"@ ==> resolved_from(namespace, name, port, Some(svc)) == Ok::<
            Seq<char>,
            Seq<char>,
        >(a + ":"@ + text::decimal(port as nat))),
{
    a_service_resolves_to_its_cluster_address(namespace, name, port, svc);
}

/// `auto` without a colon is taken for the port as a whole.
pub proof fn auto_without_a_colon_is_its_own_port(y: Seq<char>)
    requires
        forall|i: int| 0 <= i < y.len() ==> #[trigger] y[i] != ':',
    ensures
        listen_addrs("auto"@ + y, None) == seq!["0.0.0.0"@ + ":"@ + ("auto"@ + y)],
{
    reveal_strlit("auto");
    let bare = "auto"@ + y;
    assert(bare.subrange(0, 4) =~= "auto"@);
    assert(is_auto(bare));
    text::lemma_find_last(bare, ':');
    assert forall|i: int| 0 <= i < bare.len() implies bare[i] != ':' by {
        if i >= 4 {
            assert(bare[i] == y[i - 4]);
        }
    }
    assert(port_part(bare) =~= bare);
}

/// The liveness answer is not the answer to a request without a `Host`.
proof fn lemma_alive_is_no_refusal()
    ensures
        encode_utf8(
            "HTTP/1.1 200 OK\r\ncontent-type: text/plain\r\ncontent-length: 13\r\nconnection: close\r\n\r\nrouter alive\n"@,
        ) != encode_utf8(
            "HTTP/1.1 400 Bad Request\r\ncontent-length: 26\r\nconnection: close\r\n\r\nthis router needs a Host\n\n"@,
        ),
{
    let a = "HTTP/1.1 200 OK\r\ncontent-type: text/plain\r\ncontent-length: 13\r\nconnection: close\r\n\r\nrouter alive\n"@;
    let b = "HTTP/1.1 400 Bad Request\r\ncontent-length: 26\r\nconnection: close\r\n\r\nthis router needs a Host\n\n"@;
    reveal_strlit(
        "HTTP/1.1 200 OK\r\ncontent-type: text/plain\r\ncontent-length: 13\r\nconnection: close\r\n\r\nrouter alive\n",
    );
    reveal_strlit(
        "HTTP/1.1 400 Bad Request\r\ncontent-length: 26\r\nconnection: close\r\n\r\nthis router needs a Host\n\n",
    );
    assert(a[9] == '2' && b[9] == '4');
    encode_utf8_decode_utf8(a);
    encode_utf8_decode_utf8(b);
}

/// A Service has a cluster address where one is written that is not empty and
/// not `None`, and no other.
pub proof fn a_headless_service_has_no_address(svc: JsonTree)
    ensures
        ({
            let ip = json::member(json::member(svc, "spec"@), "clusterIP"@);
            &&& ip matches JsonTree::Text(a) ==> (cluster_ip_of(svc) == Some(a) <==> a.len() > 0
                && a != "None"@)
            &&& cluster_ip_of(svc) matches Some(a) ==> ip == JsonTree::Text(a)
        }),
        POLL_TIMEOUT_SECS == 10,
        HEAD_LIMIT == 16 * 1024,
{
}

} // verus!
