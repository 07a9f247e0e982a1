//! The backend the suites route to: a listener that says who it is. Every
//! answer names the backend, the Host it was asked for, the path, which
//! request on the connection this is and how many body bytes arrived, so a
//! test can tell from the body alone where the router sent it and what it
//! passed through.
//!
//! - `/stream`: sends `first`, waits, sends `second`, closes: a router that
//!   buffers responses holds `first` back.
//! - `Upgrade:` (any path): `101`, then echoes bytes both ways until EOF.
//! - anything else: `200` with a content-length, keep-alive unless asked to
//!   close.

use crate::suite::http;
use crate::text;
use vstd::prelude::*;
use vstd::slice::slice_subrange;
use vstd::utf8::*;

verus! {

/// How long `/stream` waits between its two lines, in nanoseconds.
pub const STREAM_PAUSE: u128 = 1_500_000_000;

/// A request, as far as the backend looks at it.
pub struct Request {
    /// How many bytes its head takes.
    pub head_len: usize,
    pub path: String,
    pub host: String,
    /// Whether it asks for an upgrade.
    pub upgrade: bool,
    /// How many bytes its body has.
    pub want: usize,
    /// Whether it asks to close the connection.
    pub close: bool,
}

/// The path that a head names, or nothing.
pub open spec fn path_in(head: Seq<char>) -> Seq<char> {
    let w = text::words_of(head);
    if w.len() > 1 {
        w[1]
    } else {
        ""@
    }
}

/// The host that a head names, or nothing.
pub open spec fn host_in(head: Seq<char>) -> Seq<char> {
    match http::header_of(head, "host"@) {
        Some(h) => h,
        None => ""@,
    }
}

/// The length that a head gives its body: none is 0.
pub open spec fn want_in(head: Seq<char>) -> nat {
    match http::content_length(head) {
        Some(n) => n,
        None => 0,
    }
}

/// Whether a head asks to close the connection.
pub open spec fn close_in(head: Seq<char>) -> bool {
    match http::header_of(head, "connection"@) {
        Some(v) => text::same_nocase(v, "close"@),
        None => false,
    }
}

/// Whether a request is the one whose head these bytes are.
pub open spec fn is_request(r: Request, head_bytes: Seq<u8>) -> bool {
    let head = text::lossy_text(head_bytes);
    &&& r.head_len == head_bytes.len()
    &&& r.path@ == path_in(head)
    &&& r.host@ == host_in(head)
    &&& r.upgrade == (http::header_of(head, "upgrade"@) is Some)
    &&& r.want == want_in(head)
    &&& r.close == close_in(head)
}

/// The request at the front of the bytes read so far; nothing while its head
/// is not complete.
pub fn read_request(buf: &[u8]) -> (r: Option<Request>)
    ensures
        match (r, http::head_end_of(buf@)) {
            (Some(q), Some(e)) => q.head_len == e.0 && e.0 <= buf@.len() && is_request(
                q,
                buf@.take(e.0),
            ),
            (None, None) => true,
            _ => false,
        },
{
    let (end, _) = match http::head_end(buf) {
        Some(e) => e,
        None => {
            return None;
        },
    };
    let bytes = slice_subrange(buf, 0, end);
    assert(bytes@ =~= buf@.take(end as int));
    let head = text::lossy(bytes);
    let words = text::words(text::chars_of(head.as_str()).as_slice());
    assert(text::views(words@).len() == words@.len());
    let path = if words.len() > 1 {
        assert(text::views(words@)[1] == words@[1]@);
        text::text_of(words[1].as_slice())
    } else {
        String::from_str("")
    };
    let host = match http::header(head.as_str(), "host") {
        Some(h) => h,
        None => String::from_str(""),
    };
    let upgrade = match http::header(head.as_str(), "upgrade") {
        Some(_) => true,
        None => false,
    };
    let want: usize = match http::header(head.as_str(), "content-length") {
        Some(v) => match text::parse_text(v.as_str(), usize::MAX as u64) {
            Some(n) => n as usize,
            None => 0,
        },
        None => 0,
    };
    let close = match http::header(head.as_str(), "connection") {
        Some(v) => text::same(
            text::lower_text(v.as_str()).as_str(),
            text::lower_text("close").as_str(),
        ),
        None => false,
    };
    Some(Request { head_len: end, path, host, upgrade, want, close })
}

/// How many of `n` bytes that arrived belong to a body of `want` bytes of
/// which `got` have arrived before.
pub fn body_part(n: usize, want: usize, got: usize) -> (r: usize)
    requires
        got <= want,
    ensures
        r == http::least(n as int, want - got),
        got + r <= want,
        got + r < want ==> r == n,
{
    if n <= want - got {
        n
    } else {
        want - got
    }
}

/// What the backend sends.
pub enum Sent {
    /// An upgrade: this, then what arrives is sent back.
    Upgraded(Vec<u8>),
    /// Two parts with a pause between them, then it closes.
    Streamed(Vec<u8>, Vec<u8>),
    /// One answer, and whether it closes then.
    Plain(Vec<u8>, bool),
}

/// What the backend sends, in bytes.
pub enum SentView {
    Upgraded(Seq<u8>),
    Streamed(Seq<u8>, Seq<u8>),
    Plain(Seq<u8>, bool),
}

impl View for Sent {
    type V = SentView;

    open spec fn view(&self) -> SentView {
        match self {
            Sent::Upgraded(b) => SentView::Upgraded(b@),
            Sent::Streamed(a, b) => SentView::Streamed(a@, b@),
            Sent::Plain(b, close) => SentView::Plain(b@, *close),
        }
    }
}

/// The body of a plain answer.
pub open spec fn body_of(
    name: Seq<char>,
    host: Seq<char>,
    path: Seq<char>,
    nreq: nat,
    got: nat,
) -> Seq<char> {
    "backend="@ + name + " host="@ + host + " path="@ + path + " req="@ + text::decimal(nreq)
        + " got="@ + text::decimal(got) + "\n"@
}

/// A plain answer.
pub open spec fn plain_of(body: Seq<char>, close: bool) -> Seq<char> {
    "HTTP/1.1 200 OK\r\ncontent-type: text/plain\r\ncontent-length: "@ + text::decimal(
        encode_utf8(body).len(),
    ) + "\r\n"@ + (if close {
        "connection: close\r\n"@
    } else {
        ""@
    }) + "\r\n"@ + body
}

/// What the backend `name` sends for request number `nreq` of a connection,
/// once `got` bytes of its body have arrived.
pub open spec fn answer_of(name: Seq<char>, q: Request, nreq: u64, got: usize) -> SentView {
    if q.upgrade {
        SentView::Upgraded(
            encode_utf8(
                "HTTP/1.1 101 Switching Protocols\r\nUpgrade: stormlb-test\r\nConnection: Upgrade\r\n\r\n"@,
            ),
        )
    } else if q.path@ == "/stream"@ {
        SentView::Streamed(
            encode_utf8(
                "HTTP/1.1 200 OK\r\ncontent-type: text/plain\r\nconnection: close\r\n\r\nfirst\n"@,
            ),
            encode_utf8("second\n"@),
        )
    } else {
        SentView::Plain(
            encode_utf8(
                plain_of(body_of(name, q.host@, q.path@, nreq as nat, got as nat), q.close),
            ),
            q.close,
        )
    }
}

/// What the backend `name` sends for request number `nreq` of a connection,
/// once `got` bytes of its body have arrived.
pub fn answer(name: &str, q: &Request, nreq: u64, got: usize) -> (r: Sent)
    ensures
        r@ == answer_of(name@, *q, nreq, got),
{
    if q.upgrade {
        return Sent::Upgraded(
            "HTTP/1.1 101 Switching Protocols\r\nUpgrade: stormlb-test\r\nConnection: Upgrade\r\n\r\n".as_bytes_vec(),
        );
    }
    if text::same(q.path.as_str(), "/stream") {
        return Sent::Streamed(
            "HTTP/1.1 200 OK\r\ncontent-type: text/plain\r\nconnection: close\r\n\r\nfirst\n".as_bytes_vec(),
            "second\n".as_bytes_vec(),
        );
    }
    let body = String::from_str("backend=").concat(name).concat(" host=").concat(
        q.host.as_str(),
    ).concat(" path=").concat(q.path.as_str()).concat(" req=").concat(
        text::decimal_text(nreq as u128).as_str(),
    ).concat(" got=").concat(text::decimal_text(got as u128).as_str()).concat("\n");
    let len = body.as_str().as_bytes().len();
    let resp = String::from_str(
        "HTTP/1.1 200 OK\r\ncontent-type: text/plain\r\ncontent-length: ",
    ).concat(text::decimal_text(len as u128).as_str()).concat("\r\n").concat(
        if q.close {
            "connection: close\r\n"
        } else {
            ""
        },
    ).concat("\r\n").concat(body.as_str());
    Sent::Plain(resp.as_str().as_bytes_vec(), q.close)
}

// ---------------------------------------------------------------------------
// A connection
// ---------------------------------------------------------------------------

/// A connection to the backend.
pub struct Connection {
    /// What has arrived and is not used yet.
    pub buf: Vec<u8>,
    /// How many requests there were.
    pub nreq: u64,
    /// The request whose body is arriving, and how much of it has.
    pub current: Option<(Request, usize)>,
}

/// What to do on a connection.
pub enum Turn {
    /// Read on.
    Read,
    /// A request has come; go on.
    Request,
    /// Send this.
    Send(Sent),
}

/// Whether a connection goes from `before` to `after`, and `r` is what is to
/// be done then.
pub open spec fn turns_to(
    before: Connection,
    name: Seq<char>,
    after: Connection,
    r: Turn,
) -> bool {
    match before.current {
        None => match http::head_end_of(before.buf@) {
            None => r is Read && after == before,
            Some(e) => {
                &&& r is Request
                &&& after.nreq == before.nreq + 1
                &&& after.buf@ == before.buf@.skip(e.0)
                &&& after.current matches Some(c) && c.1 == 0 && is_request(
                    c.0,
                    before.buf@.take(e.0),
                )
            },
        },
        Some(c) => {
            let got = c.1 + before.body_there();
            &&& after.nreq == before.nreq
            &&& after.buf@ == before.buf@.skip(before.body_there())
            &&& if c.0.upgrade || got == c.0.want {
                &&& r matches Turn::Send(s) && s@ == answer_of(
                    name,
                    c.0,
                    before.nreq,
                    got as usize,
                )
                &&& after.current is None
            } else {
                &&& r is Read
                &&& after.current == Some((c.0, got as usize))
            }
        },
    }
}

impl Connection {
    /// A new connection.
    pub fn new() -> (r: Connection)
        ensures
            r.buf@ == Seq::<u8>::empty(),
            r.nreq == 0,
            r.current is None,
    {
        Connection { buf: Vec::new(), nreq: 0, current: None }
    }

    /// How much of the body of the current request there is, with what has
    /// arrived. The body of a request for an upgrade is not waited for.
    pub open spec fn body_there(self) -> int {
        match self.current {
            Some(c) => if c.0.upgrade {
                0
            } else {
                http::least(self.buf@.len() as int, c.0.want - c.1)
            },
            None => 0,
        }
    }

    /// Whether a connection is in order: no more of a body has arrived than
    /// it has.
    pub open spec fn wf(self) -> bool {
        self.current matches Some(c) ==> c.1 <= c.0.want
    }

    /// Takes bytes that arrived.
    pub fn arrived(&mut self, bytes: &[u8])
        ensures
            final(self).buf@ == old(self).buf@ + bytes@,
            final(self).nreq == old(self).nreq,
            final(self).current == old(self).current,
    {
        let ghost before = self.buf@;
        self.buf.extend_from_slice(bytes);
        assert(self.buf@ =~= before + bytes@);
    }

    /// What to do next: a head that is complete is a request; its body is
    /// counted through, and once it is all there the request is answered.
    pub fn turn(&mut self, name: &str) -> (r: Turn)
        requires
            old(self).wf(),
            old(self).nreq < u64::MAX,
        ensures
            final(self).wf(),
            turns_to(*old(self), name@, *final(self), r),
            match old(self).current {
                None => match http::head_end_of(old(self).buf@) {
                    None => r is Read && *final(self) == *old(self),
                    Some(e) => {
                        &&& r is Request
                        &&& final(self).nreq == old(self).nreq + 1
                        &&& final(self).buf@ == old(self).buf@.skip(e.0)
                        &&& final(self).current matches Some(c) && c.1 == 0 && is_request(
                            c.0,
                            old(self).buf@.take(e.0),
                        )
                    },
                },
                Some(c) => {
                    let got = c.1 + old(self).body_there();
                    &&& final(self).nreq == old(self).nreq
                    &&& final(self).buf@ == old(self).buf@.skip(old(self).body_there())
                    &&& if c.0.upgrade || got == c.0.want {
                        &&& r matches Turn::Send(s) && s@ == answer_of(
                            name@,
                            c.0,
                            old(self).nreq,
                            got as usize,
                        )
                        &&& final(self).current is None
                    } else {
                        &&& r is Read
                        &&& final(self).current == Some((c.0, got as usize))
                    }
                },
            },
    {
        match self.current.take() {
            None => match read_request(self.buf.as_slice()) {
                None => Turn::Read,
                Some(q) => {
                    let rest = slice_subrange(self.buf.as_slice(), q.head_len, self.buf.len());
                    let rest = http::bytes_of(rest);
                    assert(rest@ =~= self.buf@.skip(q.head_len as int));
                    self.buf = rest;
                    self.nreq = self.nreq + 1;
                    self.current = Some((q, 0));
                    Turn::Request
                },
            },
            Some((q, before)) => {
                let mut got: usize = before;
                if !q.upgrade {
                    let n = body_part(self.buf.len(), q.want, before);
                    let rest = slice_subrange(self.buf.as_slice(), n, self.buf.len());
                    let rest = http::bytes_of(rest);
                    assert(rest@ =~= self.buf@.skip(n as int));
                    self.buf = rest;
                    got = before + n;
                } else {
                    assert(self.buf@.skip(0) =~= self.buf@);
                }
                if q.upgrade || got == q.want {
                    Turn::Send(answer(name, &q, self.nreq, got))
                } else {
                    self.current = Some((q, got));
                    Turn::Read
                }
            },
        }
    }
}

// ---------------------------------------------------------------------------
// Laws
// ---------------------------------------------------------------------------

proof fn lemma_decimal_solid(n: nat)
    ensures
        text::is_solid(text::decimal(n)),
{
    text::lemma_decimal_reads_back(n);
    let d = text::decimal(n);
    assert forall|i: int| 0 <= i < d.len() implies !text::is_white(#[trigger] d[i]) by {
        assert(text::is_digit(d[i]));
    }
}

/// A word `key=value` has the value of its key, and of no other.
proof fn lemma_word_value(key: Seq<char>, v: Seq<char>, other: Seq<char>)
    requires
        forall|i: int| 0 <= i < other.len() ==> other[i] != '=',
        forall|i: int| 0 <= i < key.len() ==> key[i] != '=',
    ensures
        http::word_value(key + "="@ + v, key) == Some(v),
        other != key ==> http::word_value(key + "="@ + v, other) is None,
{
    reveal_strlit("=");
    let w = key + "="@ + v;
    assert(w.subrange(0, key.len() as int) =~= key);
    assert(w.skip(key.len() as int + 1) =~= v);
    if other != key && http::word_value(w, other) is Some {
        let k = key.len() as int;
        let o = other.len() as int;
        assert(w.subrange(0, o) =~= other);
        if o == k {
            assert(other =~= key);
        } else if o < k {
            assert(w[o] == key[o]);
        } else {
            assert(other[k] == w.subrange(0, o)[k]);
        }
        assert(false);
    }
}

/// The body of an answer, word by word.
proof fn lemma_body_words(
    name: Seq<char>,
    host: Seq<char>,
    path: Seq<char>,
    nreq: nat,
    got: nat,
)
    requires
        text::is_solid(name),
        text::is_solid(host),
        text::is_solid(path),
    ensures
        text::words_of(body_of(name, host, path, nreq, got)) == seq![
            "backend"@ + "="@ + name,
            "host"@ + "="@ + host,
            "path"@ + "="@ + path,
            "req"@ + "="@ + text::decimal(nreq),
            "got"@ + "="@ + text::decimal(got),
        ],
{
    reveal_strlit("backend=");
    reveal_strlit("backend");
    reveal_strlit(" host=");
    reveal_strlit("host");
    reveal_strlit(" path=");
    reveal_strlit("path");
    reveal_strlit(" req=");
    reveal_strlit("req");
    reveal_strlit(" got=");
    reveal_strlit("got");
    reveal_strlit("=");
    reveal_strlit("\n");
    let e = "="@;
    let w1 = "backend"@ + e + name;
    let w2 = "host"@ + e + host;
    let w3 = "path"@ + e + path;
    let w4 = "req"@ + e + text::decimal(nreq);
    let w5 = "got"@ + e + text::decimal(got);
    let sp = seq![' '];
    let nl = seq!['\n'];
    let none: Seq<char> = seq![];
    let r4 = w5 + nl + none;
    let r3 = w4 + sp + r4;
    let r2 = w3 + sp + r3;
    let r1 = w2 + sp + r2;
    assert(body_of(name, host, path, nreq, got) =~= w1 + sp + r1);
    lemma_decimal_solid(nreq);
    lemma_decimal_solid(got);
    text::lemma_words_cons(w5, '\n', none);
    text::lemma_words_cons(w4, ' ', r4);
    text::lemma_words_cons(w3, ' ', r3);
    text::lemma_words_cons(w2, ' ', r2);
    text::lemma_words_cons(w1, ' ', r1);
    assert(text::words_of(none) =~= seq![]);
    assert(text::words_of(w1 + sp + r1) =~= seq![w1, w2, w3, w4, w5]);
}

/// The value of a key among some words that are each `key=value`.
proof fn lemma_field_skips(words: Seq<Seq<char>>, key: Seq<char>)
    requires
        words.len() > 0,
        http::word_value(words[0], key) is None,
    ensures
        http::field_in(words, key) == http::field_in(words.drop_first(), key),
{
}

/// A test can tell from the body alone where a request went: what the backend
/// writes, under its name, of the host, the path, the number of the request
/// and the length of its body is what `field` reads back, as long as no white
/// space stands in them.
pub proof fn answers_say_where_they_came_from(
    name: Seq<char>,
    host: Seq<char>,
    path: Seq<char>,
    nreq: nat,
    got: nat,
)
    requires
        text::is_solid(name),
        text::is_solid(host),
        text::is_solid(path),
    ensures
        http::field_of(body_of(name, host, path, nreq, got), "backend"@) == Some(name),
        http::field_of(body_of(name, host, path, nreq, got), "host"@) == Some(host),
        http::field_of(body_of(name, host, path, nreq, got), "path"@) == Some(path),
        http::field_of(body_of(name, host, path, nreq, got), "req"@) == Some(text::decimal(nreq)),
        http::field_of(body_of(name, host, path, nreq, got), "got"@) == Some(text::decimal(got)),
{
    reveal_strlit("backend");
    reveal_strlit("host");
    reveal_strlit("path");
    reveal_strlit("req");
    reveal_strlit("got");
    let b = "backend"@;
    let h = "host"@;
    let p = "path"@;
    let q = "req"@;
    let g = "got"@;
    assert(b.len() == 7 && h.len() == 4 && p.len() == 4 && q.len() == 3 && g.len() == 3);
    assert(h[0] != p[0] && q[0] != g[0]);
    lemma_body_words(name, host, path, nreq, got);
    let w = text::words_of(body_of(name, host, path, nreq, got));
    let w1 = w.drop_first();
    let w2 = w1.drop_first();
    let w3 = w2.drop_first();
    let w4 = w3.drop_first();
    lemma_word_value(b, name, h);
    lemma_word_value(b, name, p);
    lemma_word_value(b, name, q);
    lemma_word_value(b, name, g);
    lemma_word_value(h, host, p);
    lemma_word_value(h, host, q);
    lemma_word_value(h, host, g);
    lemma_word_value(p, path, q);
    lemma_word_value(p, path, g);
    lemma_word_value(q, text::decimal(nreq), g);
    lemma_word_value(g, text::decimal(got), q);
    lemma_field_skips(w, h);
    lemma_field_skips(w, p);
    lemma_field_skips(w1, p);
    lemma_field_skips(w, q);
    lemma_field_skips(w1, q);
    lemma_field_skips(w2, q);
    lemma_field_skips(w, g);
    lemma_field_skips(w1, g);
    lemma_field_skips(w2, g);
    lemma_field_skips(w3, g);
}

/// What a request asks for is what its head says: the second word is its path,
/// and its host, its length, whether it asks for an upgrade and whether it
/// closes stand in the headers of those names.
pub proof fn requests_ask_for_what_their_heads_say(r: Request, head_bytes: Seq<u8>)
    requires
        is_request(r, head_bytes),
    ensures
        ({
            let head = text::lossy_text(head_bytes);
            let w = text::words_of(head);
            let len = http::header_of(head, "content-length"@);
            let conn = http::header_of(head, "connection"@);
            &&& r.head_len == head_bytes.len()
            &&& w.len() >= 2 ==> r.path@ == w[1]
            &&& w.len() < 2 ==> r.path@.len() == 0
            &&& http::header_of(head, "host"@) matches Some(h) ==> r.host@ == h
            &&& http::header_of(head, "host"@) is None ==> r.host@.len() == 0
            &&& r.upgrade <==> http::header_of(head, "upgrade"@) is Some
            &&& len is None ==> r.want == 0
            &&& len matches Some(v) ==> (text::number(v, usize::MAX as nat) matches Some(n)
                ==> r.want == n)
            &&& len matches Some(v) ==> (text::number(v, usize::MAX as nat) is None ==> r.want == 0)
            &&& conn is None ==> !r.close
            &&& conn matches Some(v) ==> (r.close <==> text::lowered(v) == text::lowered("close"@))
        }),
{
    reveal_strlit("");
}

/// What is sent depends on the request alone: an upgrade is answered with a
/// 101, whatever its path; `/stream` is sent in two parts, each a line; and
/// every other request has one answer, after which the connection is closed
/// where that was asked for.
pub proof fn answers_are_of_three_kinds(name: Seq<char>, q: Request, nreq: u64, got: usize)
    ensures
        ({
            let a = answer_of(name, q, nreq, got);
            &&& a is Upgraded <==> q.upgrade
            &&& a is Streamed <==> !q.upgrade && q.path@ == "/stream"@
            &&& a is Plain <==> !q.upgrade && q.path@ != "/stream"@
            &&& a matches SentView::Plain(b, close) ==> close == q.close
            &&& a matches SentView::Upgraded(b) ==> b == encode_utf8(
                "HTTP/1.1 101 Switching Protocols\r\nUpgrade: stormlb-test\r\nConnection: Upgrade\r\n\r\n"@,
            )
            &&& a matches SentView::Streamed(x, y) ==> x == encode_utf8(
                "HTTP/1.1 200 OK\r\ncontent-type: text/plain\r\nconnection: close\r\n\r\nfirst\n"@,
            ) && y == encode_utf8("second\n"@)
        }),
{
}

/// A plain answer is a 200 with the length of its body in bytes, which says
/// that it closes exactly where it does, and then its body.
pub proof fn plain_answers_have_the_length_of_their_body(
    name: Seq<char>,
    q: Request,
    nreq: u64,
    got: usize,
)
    requires
        !q.upgrade,
        q.path@ != "/stream"@,
    ensures
        ({
            let body = "backend="@ + name + " host="@ + q.host@ + " path="@ + q.path@ + " req="@
                + text::decimal(nreq as nat) + " got="@ + text::decimal(got as nat) + "\n"@;
            let start = "HTTP/1.1 200 OK\r\ncontent-type: text/plain\r\ncontent-length: "@
                + text::decimal(encode_utf8(body).len()) + "\r\n"@;
            &&& q.close ==> answer_of(name, q, nreq, got) == SentView::Plain(
                encode_utf8(start + "connection: close\r\n"@ + "\r\n"@ + body),
                true,
            )
            &&& !q.close ==> answer_of(name, q, nreq, got) == SentView::Plain(
                encode_utf8(start + "\r\n"@ + body),
                false,
            )
        }),
{
    reveal_strlit("");
    let body = "backend="@ + name + " host="@ + q.host@ + " path="@ + q.path@ + " req="@
        + text::decimal(nreq as nat) + " got="@ + text::decimal(got as nat) + "\n"@;
    let start = "HTTP/1.1 200 OK\r\ncontent-type: text/plain\r\ncontent-length: "@ + text::decimal(
        encode_utf8(body).len(),
    ) + "\r\n"@;
    assert(start + ""@ =~= start);
}

/// A connection takes one request after another. While a head is not complete
/// nothing changes; a complete one is taken off and counted. The body of a
/// request is taken off as it comes, and no byte more; once all of it came the
/// request is answered with the number of its bytes and of the request. An
/// upgrade is answered at once.
pub proof fn connections_take_one_request_after_another(
    before: Connection,
    name: Seq<char>,
    after: Connection,
    r: Turn,
)
    requires
        before.wf(),
        turns_to(before, name, after, r),
    ensures
        before.current is None && http::head_end_of(before.buf@) is None ==> r is Read && after
            == before,
        before.current is None ==> (http::head_end_of(before.buf@) matches Some(e) ==> {
            &&& r is Request
            &&& after.nreq == before.nreq + 1
            &&& after.buf@ == before.buf@.subrange(e.0, before.buf@.len() as int)
            &&& after.current matches Some(c) && c.1 == 0 && is_request(
                c.0,
                before.buf@.subrange(0, e.0),
            )
        }),
        before.current matches Some(c) ==> {
            let (q, got) = c;
            let need = q.want - got;
            &&& after.nreq == before.nreq
            &&& q.upgrade ==> after.buf@ == before.buf@ && after.current is None && (r matches Turn::Send(
                s,
            ) && s@ == answer_of(name, q, before.nreq, got))
            &&& !q.upgrade && before.buf@.len() >= need ==> after.buf@ == before.buf@.subrange(
                need,
                before.buf@.len() as int,
            ) && after.current is None && (r matches Turn::Send(s) && s@ == answer_of(
                name,
                q,
                before.nreq,
                q.want,
            ))
            &&& !q.upgrade && before.buf@.len() < need ==> after.buf@.len() == 0 && r is Read && (
            after.current matches Some(d) && d.0 == q && d.1 == got + before.buf@.len())
        },
{
    match before.current {
        None => {
            http::a_head_ends_at_the_first_terminator(before.buf@);
            match http::head_end_of(before.buf@) {
                Some(e) => {
                    assert(before.buf@.skip(e.0) =~= before.buf@.subrange(
                        e.0,
                        before.buf@.len() as int,
                    ));
                    assert(before.buf@.take(e.0) =~= before.buf@.subrange(0, e.0));
                },
                None => {},
            }
        },
        Some(c) => {
            let need = c.0.want - c.1;
            assert(before.buf@.skip(0) =~= before.buf@);
            if before.buf@.len() >= need {
                assert(before.buf@.skip(need) =~= before.buf@.subrange(
                    need,
                    before.buf@.len() as int,
                ));
            }
        },
    }
}

} // verus!
