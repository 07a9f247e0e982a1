//! HTTP/1.1 on the wire, as the suites read and write it: line endings, a
//! close with no response and bytes that arrive early are what they look at.

use crate::router::{self, AnswerView};
use crate::text;
use vstd::prelude::*;
use vstd::slice::slice_subrange;
use vstd::utf8::*;

verus! {

/// How long a connection may take to open, to take what is sent, or to bring
/// something, in nanoseconds.
pub const IO_WAIT: u128 = 10_000_000_000;

/// A response.
pub struct Resp {
    pub status: u16,
    pub head: String,
    pub body: Vec<u8>,
    /// The head ended in CRLF CRLF (RFC 9112), not a bare LF LF.
    pub crlf: bool,
}

/// Why a request failed.
pub struct Fault {
    /// The reason, in words.
    pub why: String,
    /// The reason, in the form for debugging.
    pub debug: String,
    /// Whether the peer reset the connection.
    pub reset: bool,
}

/// What came back for a request.
pub enum Reply {
    /// A response.
    Answer(Resp),
    /// The peer closed without sending a byte.
    Closed,
    /// No response, for another reason.
    Failed(Fault),
}

impl Resp {
    /// The body as text.
    pub open spec fn body_text(self) -> Seq<char> {
        text::lossy_text(self.body@)
    }

    /// Which test backend the body says answered.
    pub open spec fn backend_name(self) -> Option<Seq<char>> {
        field_of(self.body_text(), "backend"@)
    }

    /// The body as text.
    pub fn text(&self) -> (r: String)
        ensures
            r@ == self.body_text(),
    {
        text::lossy(self.body.as_slice())
    }

    /// Which test backend answered (`backend=<name>` in its body).
    pub fn backend(&self) -> (r: Option<String>)
        ensures
            text::opt_string(r) == self.backend_name(),
    {
        field(self.text().as_str(), "backend")
    }
}

/// The value in a word `key=value`.
pub open spec fn word_value(word: Seq<char>, key: Seq<char>) -> Option<Seq<char>> {
    if text::begins(word, key) && word.len() > key.len() && word[key.len() as int] == '=' {
        Some(word.skip(key.len() as int + 1))
    } else {
        None
    }
}

/// The value in the first word that is `key=value`.
pub open spec fn field_in(words: Seq<Seq<char>>, key: Seq<char>) -> Option<Seq<char>>
    decreases words.len(),
{
    if words.len() == 0 {
        None
    } else if word_value(words[0], key) is Some {
        word_value(words[0], key)
    } else {
        field_in(words.drop_first(), key)
    }
}

/// `key=value` in a text.
pub open spec fn field_of(body: Seq<char>, key: Seq<char>) -> Option<Seq<char>> {
    field_in(text::words_of(body), key)
}

/// `key=value` from a test backend's body.
pub fn field(body: &str, key: &str) -> (r: Option<String>)
    ensures
        text::opt_string(r) == field_of(body@, key@),
{
    let words = text::words(text::chars_of(body).as_slice());
    let k = text::chars_of(key);
    let ghost all = text::words_of(body@);
    assert(all.skip(0) =~= all);
    let mut i: usize = 0;
    while i < words.len()
        invariant
            i <= words@.len(),
            all == text::views(words@),
            all == text::words_of(body@),
            k@ == key@,
            field_in(all, key@) == field_in(all.skip(i as int), key@),
        decreases words.len() - i,
    {
        let w = words[i].as_slice();
        assert(all.skip(i as int)[0] == w@);
        assert(all.skip(i as int).drop_first() =~= all.skip(i + 1));
        if text::stands_at(w, k.as_slice(), 0) && w.len() > k.len() && w[k.len()] == '=' {
            let v = slice_subrange(w, k.len() + 1, w.len());
            assert(v@ =~= w@.skip(k@.len() as int + 1));
            return Some(text::text_of(v));
        }
        i += 1;
    }
    assert(all.skip(i as int) =~= seq![]);
    None
}

/// Whether CRLF CRLF ends at `e`.
pub open spec fn crlf_ends_at(buf: Seq<u8>, e: int) -> bool {
    text::occurs_at(buf, seq![13u8, 10u8, 13u8, 10u8], e - 4)
}

/// Whether LF LF ends at `e`.
pub open spec fn lf_ends_at(buf: Seq<u8>, e: int) -> bool {
    text::occurs_at(buf, seq![10u8, 10u8], e - 2)
}

/// Whether a terminator ends at `e`.
pub open spec fn ends_at(buf: Seq<u8>, e: int) -> bool {
    crlf_ends_at(buf, e) || lf_ends_at(buf, e)
}

/// The first place from `i` on at which a terminator ends.
pub open spec fn first_end(buf: Seq<u8>, i: int) -> Option<int>
    decreases buf.len() - i + 1,
{
    if i > buf.len() {
        None
    } else if ends_at(buf, i) {
        Some(i)
    } else {
        first_end(buf, i + 1)
    }
}

/// Where the head ends, and whether it ended in CRLF CRLF: at the first place
/// at which a terminator ends.
pub open spec fn head_end_of(buf: Seq<u8>) -> Option<(int, bool)> {
    match first_end(buf, 0) {
        Some(e) => Some((e, crlf_ends_at(buf, e))),
        None => None,
    }
}

/// Where the head ends, and whether it ended in CRLF CRLF.
pub fn head_end(buf: &[u8]) -> (r: Option<(usize, bool)>)
    ensures
        match r {
            Some(e) => head_end_of(buf@) == Some((e.0 as int, e.1)) && 2 <= e.0 <= buf@.len(),
            None => head_end_of(buf@) is None,
        },
{
    let mut four: Vec<u8> = Vec::new();
    four.push(13);
    four.push(10);
    four.push(13);
    four.push(10);
    let mut two: Vec<u8> = Vec::new();
    two.push(10);
    two.push(10);
    assert(four@ =~= seq![13u8, 10u8, 13u8, 10u8]);
    assert(two@ =~= seq![10u8, 10u8]);
    let len = buf.len();
    let crlf = text::bytes_position(buf, four.as_slice());
    let lf = text::bytes_position(buf, two.as_slice());
    proof {
        text::lemma_find_from(buf@, four@, 0);
        text::lemma_find_from(buf@, two@, 0);
        a_head_ends_at_the_first_terminator(buf@);
    }
    match (crlf, lf) {
        (Some(c), Some(l)) => if l < c + 2 {
            proof {
                lemma_head_end_is(buf@, l + 2);
            }
            Some((l + 2, false))
        } else {
            proof {
                lemma_head_end_is(buf@, c + 4);
            }
            Some((c + 4, true))
        },
        (Some(c), None) => {
            proof {
                lemma_head_end_is(buf@, c + 4);
            }
            Some((c + 4, true))
        },
        (None, Some(l)) => {
            proof {
                lemma_head_end_is(buf@, l + 2);
            }
            Some((l + 2, false))
        },
        (None, None) => None,
    }
}

/// The value of a header line, where it is the header `name`.
pub open spec fn line_value(line: Seq<char>, name: Seq<char>) -> Option<Seq<char>> {
    let c = text::find(line, ':') as int;
    if c < line.len() && text::same_nocase(text::trimmed(line.take(c)), name) {
        Some(text::trimmed(line.skip(c + 1)))
    } else {
        None
    }
}

/// The value of the first header `name` among some lines.
pub open spec fn header_in(lines: Seq<Seq<char>>, name: Seq<char>) -> Option<Seq<char>>
    decreases lines.len(),
{
    if lines.len() == 0 {
        None
    } else if line_value(lines[0], name) is Some {
        line_value(lines[0], name)
    } else {
        header_in(lines.drop_first(), name)
    }
}

/// A header's value: the first line is no header.
pub open spec fn header_of(head: Seq<char>, name: Seq<char>) -> Option<Seq<char>> {
    let lines = text::lines_of(head);
    if lines.len() == 0 {
        None
    } else {
        header_in(lines.drop_first(), name)
    }
}

/// A header's value, case-insensitively.
pub fn header(head: &str, name: &str) -> (r: Option<String>)
    ensures
        text::opt_string(r) == header_of(head@, name@),
{
    let lines = text::lines(text::chars_of(head).as_slice());
    let n = text::to_lower(text::chars_of(name).as_slice());
    let ghost all = text::lines_of(head@);
    if lines.len() == 0 {
        assert(all.len() == text::views(lines@).len());
        return None;
    }
    assert(all.skip(1) =~= all.drop_first());
    let mut i: usize = 1;
    while i < lines.len()
        invariant
            1 <= i <= lines@.len(),
            all == text::views(lines@),
            all == text::lines_of(head@),
            n@ == text::lowered(name@),
            header_of(head@, name@) == header_in(all.skip(i as int), name@),
        decreases lines.len() - i,
    {
        let line = lines[i].as_slice();
        assert(all.skip(i as int)[0] == line@);
        assert(all.skip(i as int).drop_first() =~= all.skip(i + 1));
        let c = text::position(line, ':');
        if c < line.len() {
            let k = slice_subrange(line, 0, c);
            assert(k@ =~= line@.take(c as int));
            let key = text::to_lower(text::trim(k));
            if text::same_chars(key.as_slice(), n.as_slice()) {
                let v = slice_subrange(line, c + 1, line.len());
                assert(v@ =~= line@.skip(c + 1));
                return Some(text::text_of(text::trim(v)));
            }
        }
        i += 1;
    }
    assert(all.skip(i as int) =~= seq![]);
    None
}

/// A request that closes after its answer.
pub open spec fn get_text(host: Seq<char>, path: Seq<char>) -> Seq<char> {
    "GET "@ + path + " HTTP/1.1\r\nHost: "@ + host
        + "\r\nUser-Agent: stormlb-test\r\nConnection: close\r\n\r\n"@
}

/// `GET path` for `host`, closing after.
pub fn get(host: &str, path: &str) -> (r: Vec<u8>)
    ensures
        r@ == encode_utf8(get_text(host@, path@)),
{
    String::from_str("GET ").concat(path).concat(" HTTP/1.1\r\nHost: ").concat(host).concat(
        "\r\nUser-Agent: stormlb-test\r\nConnection: close\r\n\r\n",
    ).as_str().as_bytes_vec()
}

// ---------------------------------------------------------------------------
// Reading a response
// ---------------------------------------------------------------------------

/// Whether more can come.
#[derive(Debug, Clone, Copy, PartialEq, Eq, Structural)]
pub enum End {
    /// It can.
    Open,
    /// The peer closed.
    Eof,
    /// The peer reset the connection.
    Reset,
}

/// What to do with the bytes read so far.
pub enum Next {
    /// Read on.
    Read,
    /// There is no response: the peer closed without sending a byte.
    Nothing,
    /// The peer closed in the middle of the head.
    CutOff,
    /// The connection broke.
    Broken,
    /// The head names no status; this is the head.
    NoStatus(String),
    /// A response, made of the first so many bytes.
    Response(Resp, usize),
}

/// What is to be done.
pub enum NextView {
    Read,
    Nothing,
    CutOff,
    Broken,
    NoStatus(Seq<char>),
    Response { status: u16, head: Seq<char>, body: Seq<u8>, crlf: bool, used: int },
}

impl View for Next {
    type V = NextView;

    open spec fn view(&self) -> NextView {
        match self {
            Next::Read => NextView::Read,
            Next::Nothing => NextView::Nothing,
            Next::CutOff => NextView::CutOff,
            Next::Broken => NextView::Broken,
            Next::NoStatus(h) => NextView::NoStatus(h@),
            Next::Response(r, n) => NextView::Response {
                status: r.status,
                head: r.head@,
                body: r.body@,
                crlf: r.crlf,
                used: *n as int,
            },
        }
    }
}

/// The status that a head names.
pub open spec fn status_of(head: Seq<char>) -> Option<nat> {
    let w = text::words_of(head);
    if w.len() > 1 {
        text::number(w[1], 65535)
    } else {
        None
    }
}

/// The length that a head gives its body.
pub open spec fn content_length(head: Seq<char>) -> Option<nat> {
    match header_of(head, "content-length"@) {
        Some(v) => text::number(v, usize::MAX as nat),
        None => None,
    }
}

/// The smaller of two numbers.
pub open spec fn least(a: int, b: int) -> int {
    if a <= b {
        a
    } else {
        b
    }
}

/// What to do with the bytes read so far, once the head is there. A body is
/// as long as its head says, or what came before the close; else it goes on
/// to the close. An upgrade has none.
pub open spec fn next_with_head(buf: Seq<u8>, end: End, at: int, crlf: bool) -> NextView {
    let head = text::lossy_text(buf.take(at));
    let rest = buf.skip(at);
    match status_of(head) {
        None => NextView::NoStatus(head),
        Some(status) => if status == 101 {
            NextView::Response { status: 101, head, body: seq![], crlf, used: at }
        } else {
            match content_length(head) {
                Some(n) => if rest.len() < n && end == End::Open {
                    NextView::Read
                } else if rest.len() < n && end == End::Reset {
                    NextView::Broken
                } else {
                    let k = least(n as int, rest.len() as int);
                    NextView::Response {
                        status: status as u16,
                        head,
                        body: rest.take(k),
                        crlf,
                        used: at + k,
                    }
                },
                None => match end {
                    End::Open => NextView::Read,
                    End::Reset => NextView::Broken,
                    End::Eof => NextView::Response {
                        status: status as u16,
                        head,
                        body: rest,
                        crlf,
                        used: buf.len() as int,
                    },
                },
            }
        },
    }
}

/// What to do with the bytes read so far.
pub open spec fn next_of(buf: Seq<u8>, end: End) -> NextView {
    match head_end_of(buf) {
        Some(e) => next_with_head(buf, end, e.0, e.1),
        None => match end {
            End::Open => NextView::Read,
            End::Eof => if buf.len() == 0 {
                NextView::Nothing
            } else {
                NextView::CutOff
            },
            End::Reset => if buf.len() == 0 {
                NextView::Nothing
            } else {
                NextView::Broken
            },
        },
    }
}

/// A copy of some bytes.
pub fn bytes_of(s: &[u8]) -> (r: Vec<u8>)
    ensures
        r@ == s@,
{
    let mut r: Vec<u8> = Vec::new();
    r.extend_from_slice(s);
    assert(r@ =~= s@);
    r
}

/// Decides on a response from the bytes read so far.
pub fn response(buf: &[u8], end: End) -> (r: Next)
    ensures
        r@ == next_of(buf@, end),
        r matches Next::Response(_, n) ==> n <= buf@.len(),
{
    let (at, crlf) = match head_end(buf) {
        Some(e) => e,
        None => {
            return match end {
                End::Open => Next::Read,
                End::Eof => if buf.len() == 0 {
                    Next::Nothing
                } else {
                    Next::CutOff
                },
                End::Reset => if buf.len() == 0 {
                    Next::Nothing
                } else {
                    Next::Broken
                },
            };
        },
    };
    let head_bytes = slice_subrange(buf, 0, at);
    assert(head_bytes@ =~= buf@.take(at as int));
    let rest = slice_subrange(buf, at, buf.len());
    assert(rest@ =~= buf@.skip(at as int));
    let head = text::lossy(head_bytes);
    let words = text::words(text::chars_of(head.as_str()).as_slice());
    assert(text::views(words@).len() == words@.len());
    let status: u16 = if words.len() > 1 {
        assert(text::views(words@)[1] == words@[1]@);
        match text::parse_number(words[1].as_slice(), 65535) {
            Some(s) => s as u16,
            None => {
                return Next::NoStatus(head);
            },
        }
    } else {
        return Next::NoStatus(head);
    };
    if status == 101 {
        let body: Vec<u8> = Vec::new();
        assert(body@ =~= seq![]);
        return Next::Response(Resp { status, head, body, crlf }, at);
    }
    let length = match header(head.as_str(), "content-length") {
        Some(v) => text::parse_text(v.as_str(), usize::MAX as u64),
        None => None,
    };
    match length {
        Some(n) => {
            let n: usize = n as usize;
            if rest.len() < n && end == End::Open {
                return Next::Read;
            }
            if rest.len() < n && end == End::Reset {
                return Next::Broken;
            }
            let k = if n <= rest.len() {
                n
            } else {
                rest.len()
            };
            let part = slice_subrange(rest, 0, k);
            assert(part@ =~= rest@.take(k as int));
            Next::Response(Resp { status, head, body: bytes_of(part), crlf }, at + k)
        },
        None => match end {
            End::Open => Next::Read,
            End::Reset => Next::Broken,
            End::Eof => Next::Response(
                Resp { status, head, body: bytes_of(rest), crlf },
                buf.len(),
            ),
        },
    }
}

// ---------------------------------------------------------------------------
// Laws
// ---------------------------------------------------------------------------

/// CRLF CRLF and LF LF do not end at one place.
proof fn lemma_one_terminator(buf: Seq<u8>, e: int)
    ensures
        !(crlf_ends_at(buf, e) && lf_ends_at(buf, e)),
{
    let four = seq![13u8, 10u8, 13u8, 10u8];
    let two = seq![10u8, 10u8];
    if crlf_ends_at(buf, e) && lf_ends_at(buf, e) {
        assert(buf.subrange(e - 4, e)[2] == four[2]);
        assert(buf.subrange(e - 2, e)[0] == two[0]);
    }
}

proof fn lemma_first_end(buf: Seq<u8>, i: int)
    requires
        0 <= i,
    ensures
        match first_end(buf, i) {
            Some(e) => i <= e <= buf.len() && ends_at(buf, e) && forall|j: int|
                i <= j < e ==> !ends_at(buf, j),
            None => forall|j: int| i <= j ==> !ends_at(buf, j),
        },
    decreases buf.len() - i + 1,
{
    if i <= buf.len() && !ends_at(buf, i) {
        lemma_first_end(buf, i + 1);
    }
}

/// A head ends where a terminator ends for the first time, which is CRLF CRLF
/// or else LF LF; it does not end where there is none.
pub proof fn a_head_ends_at_the_first_terminator(buf: Seq<u8>)
    ensures
        match head_end_of(buf) {
            Some(e) => {
                &&& 2 <= e.0 <= buf.len()
                &&& ends_at(buf, e.0)
                &&& e.1 == crlf_ends_at(buf, e.0)
                &&& e.1 != lf_ends_at(buf, e.0)
                &&& forall|j: int| j < e.0 ==> !ends_at(buf, j)
            },
            None => forall|j: int| !ends_at(buf, j),
        },
{
    lemma_first_end(buf, 0);
    match first_end(buf, 0) {
        Some(e) => lemma_one_terminator(buf, e),
        None => {},
    }
}

/// The place that has the properties of the end of a head is its end.
proof fn lemma_head_end_is(buf: Seq<u8>, e: int)
    requires
        ends_at(buf, e),
        forall|j: int| j < e ==> !ends_at(buf, j),
    ensures
        head_end_of(buf) == Some((e, crlf_ends_at(buf, e))),
        crlf_ends_at(buf, e) != lf_ends_at(buf, e),
{
    lemma_first_end(buf, 0);
    lemma_one_terminator(buf, e);
}

/// Where the head ends does not change when bytes follow.
pub proof fn a_head_stays_where_it_ends(b: Seq<u8>, more: Seq<u8>)
    requires
        head_end_of(b) is Some,
    ensures
        head_end_of(b + more) == head_end_of(b),
{
    a_head_ends_at_the_first_terminator(b);
    let c = b + more;
    let e = head_end_of(b)->0;
    assert forall|j: int| j <= e.0 implies crlf_ends_at(c, j) == crlf_ends_at(b, j) && lf_ends_at(
        c,
        j,
    ) == lf_ends_at(b, j) by {
        if j >= 2 {
            assert(c.subrange(j - 2, j) =~= b.subrange(j - 2, j));
        }
        if j >= 4 {
            assert(c.subrange(j - 4, j) =~= b.subrange(j - 4, j));
        }
    }
    assert forall|j: int| j < e.0 implies !ends_at(c, j) by {
        assert(crlf_ends_at(c, j) == crlf_ends_at(b, j));
        assert(!ends_at(b, j));
    }
    lemma_head_end_is(c, e.0);
}

/// A response that is complete while more can come is not changed by what
/// comes: the bytes that follow are left for the next one.
pub proof fn a_response_is_not_changed_by_what_follows(b: Seq<u8>, more: Seq<u8>, end: End)
    requires
        next_of(b, End::Open) is Response,
    ensures
        next_of(b + more, end) == next_of(b, End::Open),
{
    a_head_stays_where_it_ends(b, more);
    match head_end_of(b) {
        Some(e) => {
            let at = e.0;
            a_head_ends_at_the_first_terminator(b);
            assert((b + more).take(at) =~= b.take(at));
            let head = text::lossy_text(b.take(at));
            match content_length(head) {
                Some(n) => {
                    let rest = b.skip(at);
                    if rest.len() >= n {
                        assert((b + more).skip(at).take(n as int) =~= rest.take(n as int));
                    }
                },
                None => {},
            }
        },
        None => {},
    }
}

/// A line and what follows it, in bytes.
proof fn lemma_line(line: Seq<char>, rest: Seq<char>)
    requires
        forall|i: int| 0 <= i < line.len() ==> #[trigger] line[i] != '\n',
    ensures
        ({
            let b = encode_utf8(line + seq!['\n'] + rest);
            let n = text::find(b, 10u8) as int;
            &&& n < b.len()
            &&& b.take(n) == encode_utf8(line)
            &&& b.skip(n + 1) == encode_utf8(rest)
        }),
{
    let nl = seq!['\n'];
    let b = encode_utf8(line + nl + rest);
    text::lemma_encode_concat(line + nl, rest);
    text::lemma_encode_concat(line, nl);
    text::lemma_line_feed();
    text::lemma_line_bytes(line);
    let e = encode_utf8(line);
    let n = e.len() as int;
    assert(b =~= e + seq![10u8] + encode_utf8(rest));
    assert(b[n] == 10);
    assert forall|i: int| 0 <= i < n implies b[i] != 10 by {
        assert(b[i] == e[i]);
    }
    text::lemma_find_is(b, 10u8, n);
    assert(b.take(n) =~= e);
    assert(b.skip(n + 1) =~= encode_utf8(rest));
}

/// A request goes where its host is routed: the router reads from what `get`
/// writes the host that it was written for, in lower case, and forwards it to
/// the backend of that host where a route claims it.
pub proof fn requests_are_routed_by_the_host_they_name(
    host: Seq<char>,
    path: Seq<char>,
    table: Map<Seq<char>, Seq<char>>,
)
    requires
        host.len() > 0,
        forall|i: int| 0 <= i < host.len() ==> !text::is_white(#[trigger] host[i]),
        (forall|i: int| 0 <= i < host.len() ==> #[trigger] host[i] != ':') || (host[0] == '['
            && host.last() == ']'),
        forall|i: int| 0 <= i < path.len() ==> !text::is_white(#[trigger] path[i]),
    ensures
        router::host_in_head(encode_utf8(get_text(host, path))) == Some(text::lowered(host)),
        table.contains_key(text::lowered(host)) ==> router::answer_to(
            encode_utf8(get_text(host, path)),
            table,
        ) == AnswerView::Forward(table[text::lowered(host)]),
{
    reveal_strlit("GET ");
    reveal_strlit(" HTTP/1.1\r\nHost: ");
    reveal_strlit(" HTTP/1.1\r");
    reveal_strlit("Host: ");
    reveal_strlit("\r");
    reveal_strlit("\r\nUser-Agent: stormlb-test\r\nConnection: close\r\n\r\n");
    reveal_strlit("User-Agent: stormlb-test\r\nConnection: close\r\n\r\n");
    reveal_strlit("host");
    let nl = seq!['\n'];
    let l1 = "GET "@ + path + " HTTP/1.1\r"@;
    let l2 = "Host: "@ + host + "\r"@;
    let l3 = "User-Agent: stormlb-test\r\nConnection: close\r\n\r\n"@;
    let rest = l2 + nl + l3;
    assert(get_text(host, path) =~= l1 + nl + rest);
    assert forall|i: int| 0 <= i < l1.len() implies #[trigger] l1[i] != '\n' by {
        if 4 <= i < 4 + path.len() {
            assert(l1[i] == path[i - 4]);
        }
    }
    assert forall|i: int| 0 <= i < l2.len() implies #[trigger] l2[i] != '\n' by {
        if 6 <= i < 6 + host.len() {
            assert(l2[i] == host[i - 6]);
        }
    }
    lemma_line(l1, rest);
    lemma_line(l2, l3);
    encode_utf8_valid_utf8(l2);
    encode_utf8_decode_utf8(l2);
    // The line, trimmed.
    let t = "Host: "@ + host;
    assert(text::trimmed_start(l2) == l2) by {
        assert(l2[0] == 'H');
        assert(!text::is_white('H'));
    }
    assert(text::trimmed_end(l2) == t) by {
        assert(l2.last() == '\r');
        assert(text::is_white('\r'));
        assert(l2.drop_last() =~= t);
        assert(t.last() == host.last());
        assert(!text::is_white(host[host.len() - 1]));
        assert(text::trimmed_end(t) == t);
    }
    // Its name and its value.
    text::lemma_find_is(t, ':', 4);
    let name = t.take(4);
    assert(name =~= "Host"@) by {
        reveal_strlit("Host");
    }
    assert(text::trimmed(name) == name) by {
        assert(name[0] == 'H' && name.last() == 't');
        assert(!text::is_white('H') && !text::is_white('t'));
    }
    assert(text::lowered(name) =~= text::lowered("host"@));
    let v = t.skip(5);
    assert(v =~= seq![' '] + host);
    assert(v.drop_first() =~= host);
    assert(text::is_white(' '));
    assert(text::trimmed_start(host) == host) by {
        assert(!text::is_white(host[0]));
    }
    assert(text::trimmed_start(v) == host);
    assert(text::trimmed(v) == text::trimmed(host));
    router::hosts_are_matched_without_a_port(host, seq![]);
    assert(router::host_name(v) == text::lowered(host));
    assert(router::host_line(t) == Some(text::lowered(host)));
}

/// Heads of five lines, each of which ends in CR LF, end at the fifth: the
/// only one that is blank.
proof fn lemma_five_lines(a: Seq<u8>, b: Seq<u8>, c: Seq<u8>, d: Seq<u8>)
    requires
        forall|i: int| 0 <= i < a.len() ==> #[trigger] a[i] != 10,
        forall|i: int| 0 <= i < b.len() ==> #[trigger] b[i] != 10,
        forall|i: int| 0 <= i < c.len() ==> #[trigger] c[i] != 10,
        forall|i: int| 0 <= i < d.len() ==> #[trigger] d[i] != 10,
        b.len() >= 2,
        c.len() >= 2,
        d.len() >= 2,
        d.last() == 13,
    ensures
        ({
            let lf = seq![10u8];
            let s = a + lf + b + lf + c + lf + d + lf + seq![13u8, 10u8];
            &&& head_end_of(s) == Some((s.len() as int, true))
            &&& router::head_end_of(s) == Some(s.len() as int)
        }),
{
    let lf = seq![10u8];
    let four = seq![13u8, 10u8, 13u8, 10u8];
    let two = seq![10u8, 10u8];
    let s = a + lf + b + lf + c + lf + d + lf + seq![13u8, 10u8];
    let p = a.len() as int;
    let q = p + 1 + b.len();
    let r = q + 1 + c.len();
    let t = r + 1 + d.len();
    let end = t + 3;
    assert(s.len() == end);
    assert forall|i: int| 0 <= i < end implies (#[trigger] s[i] == 10 <==> (i == p || i == q || i
        == r || i == t || i == t + 2)) by {
        if i < p {
            assert(s[i] == a[i]);
        } else if p < i < q {
            assert(s[i] == b[i - p - 1]);
        } else if q < i < r {
            assert(s[i] == c[i - q - 1]);
        } else if r < i < t {
            assert(s[i] == d[i - r - 1]);
        }
    }
    assert(s[t - 1] == d[d.len() - 1]);
    assert(s.subrange(end - 4, end) =~= four);
    assert forall|j: int| j < end implies !#[trigger] ends_at(s, j) by {
        if lf_ends_at(s, j) {
            assert(s.subrange(j - 2, j)[0] == two[0] && s.subrange(j - 2, j)[1] == two[1]);
            assert(s[j - 2] == 10 && s[j - 1] == 10);
        }
        if crlf_ends_at(s, j) {
            assert(s.subrange(j - 4, j)[1] == four[1] && s.subrange(j - 4, j)[3] == four[3]);
            assert(s[j - 3] == 10 && s[j - 1] == 10);
        }
    }
    lemma_head_end_is(s, end);
    text::lemma_find_from(s, four, 0);
    match text::find_from(s, four, 0) {
        Some(k) => {
            assert(crlf_ends_at(s, k + 4));
            assert(ends_at(s, k + 4));
        },
        None => {
            assert(text::occurs_at(s, four, end - 4));
        },
    }
}

/// A header line has the value of its name, and of no other.
pub proof fn lemma_line_value(name: Seq<char>, v: Seq<char>, other: Seq<char>)
    requires
        text::is_solid(name),
        text::is_solid(v),
        name.len() > 0,
        v.len() > 0,
        forall|i: int| 0 <= i < name.len() ==> #[trigger] name[i] != ':',
    ensures
        text::same_nocase(name, other) ==> line_value(name + seq![':', ' '] + v, other) == Some(v),
        !text::same_nocase(name, other) ==> line_value(name + seq![':', ' '] + v, other) is None,
{
    let line = name + seq![':', ' '] + v;
    let n = name.len() as int;
    assert forall|i: int| 0 <= i < n implies line[i] != ':' by {
        assert(line[i] == name[i]);
    }
    assert(line[n] == ':');
    text::lemma_find_is(line, ':', n);
    assert(line.take(n) =~= name);
    assert(!text::is_white(name[0]) && !text::is_white(name[n - 1]));
    assert(text::trimmed(name) == name);
    let w = line.skip(n + 1);
    assert(w =~= seq![' '] + v);
    assert(w.drop_first() =~= v);
    assert(text::is_white(' '));
    assert(!text::is_white(v[0]) && !text::is_white(v[v.len() - 1]));
    assert(text::trimmed_start(v) == v);
    assert(text::trimmed_start(w) == v);
    assert(text::trimmed_end(v) == v);
}

/// What `get` writes is read back in full. Its head is all of it, for the
/// router and for the suites; the path, the host and that the connection is to
/// be closed are those that it was written for. The router drops a query from
/// the path.
#[verifier::spinoff_prover]
#[verifier::rlimit(60)]
pub proof fn requests_are_read_back(host: Seq<char>, path: Seq<char>)
    requires
        host.len() > 0,
        path.len() > 0,
        text::is_solid(host),
        text::is_solid(path),
    ensures
        ({
            let t = get_text(host, path);
            let b = encode_utf8(t);
            &&& head_end_of(b) == Some((b.len() as int, true))
            &&& router::head_end_of(b) == Some(b.len() as int)
            &&& router::path_of(b) == Some(path.take(text::find(path, '?') as int))
            &&& text::words_of(t).len() > 1
            &&& text::words_of(t)[1] == path
            &&& header_of(t, "host"@) == Some(host)
            &&& header_of(t, "connection"@) == Some("close"@)
        }),
{
    reveal_strlit("GET ");
    reveal_strlit(" HTTP/1.1\r\nHost: ");
    reveal_strlit("\r\nUser-Agent: stormlb-test\r\nConnection: close\r\n\r\n");
    reveal_strlit("GET");
    reveal_strlit("HTTP/1.1");
    reveal_strlit("Host");
    reveal_strlit("User-Agent");
    reveal_strlit("stormlb-test");
    reveal_strlit("Connection");
    reveal_strlit("close");
    reveal_strlit("host");
    reveal_strlit("connection");
    let cr = seq!['\r'];
    let nl = seq!['\n'];
    let crnl = seq!['\r', '\n'];
    let sp = seq![' '];
    let colon = seq![':', ' '];
    let l1 = "GET"@ + sp + path + sp + "HTTP/1.1"@;
    let l2 = "Host"@ + colon + host;
    let l3 = "User-Agent"@ + colon + "stormlb-test"@;
    let l4 = "Connection"@ + colon + "close"@;
    let none: Seq<char> = seq![];
    let t = get_text(host, path);
    let t5 = none + crnl + none;
    let t4 = l4 + crnl + t5;
    let t3 = l3 + crnl + t4;
    let t2 = l2 + crnl + t3;
    assert(t =~= l1 + crnl + t2);
    assert(t2 =~= l2 + cr + nl + t3);
    assert forall|i: int| 0 <= i < l1.len() implies #[trigger] l1[i] != '\n' by {
        if 4 <= i < 4 + path.len() {
            assert(l1[i] == path[i - 4]);
        }
    }
    assert forall|i: int| 0 <= i < l2.len() implies #[trigger] l2[i] != '\n' by {
        if 6 <= i {
            assert(l2[i] == host[i - 6]);
        }
    }
    // As lines of text.
    text::lemma_lines_cons(l1, t2);
    text::lemma_lines_cons(l2, t3);
    text::lemma_lines_cons(l3, t4);
    text::lemma_lines_cons(l4, t5);
    let lines = text::lines_of(t);
    let rest = seq![l2] + (seq![l3] + (seq![l4] + text::lines_of(t5)));
    assert(lines.drop_first() =~= rest);
    assert(rest.drop_first() =~= seq![l3] + (seq![l4] + text::lines_of(t5)));
    assert(rest.drop_first().drop_first() =~= seq![l4] + text::lines_of(t5));
    lemma_line_value("Host"@, host, "host"@);
    lemma_line_value("Host"@, host, "connection"@);
    lemma_line_value("User-Agent"@, "stormlb-test"@, "connection"@);
    lemma_line_value("Connection"@, "close"@, "connection"@);
    assert(text::lowered("Host"@) =~= text::lowered("host"@));
    assert(text::lowered("Connection"@) =~= text::lowered("connection"@));
    assert(text::lowered("Host"@).len() != text::lowered("connection"@).len());
    assert(text::lowered("User-Agent"@)[0] != text::lowered("connection"@)[0]);
    reveal_with_fuel(header_in, 4);
    // As words.
    let w1 = "HTTP/1.1"@ + cr;
    text::lemma_words_cons("GET"@, ' ', path + sp + "HTTP/1.1"@ + crnl + t2);
    text::lemma_words_cons(path, ' ', "HTTP/1.1"@ + crnl + t2);
    assert(t =~= "GET"@ + sp + (path + sp + "HTTP/1.1"@ + crnl + t2));
    assert(path + sp + "HTTP/1.1"@ + crnl + t2 =~= path + sp + ("HTTP/1.1"@ + crnl + t2));
    text::lemma_words_cons("GET"@, ' ', path + sp + w1);
    text::lemma_words_cons(path, ' ', w1);
    assert(l1 + cr =~= "GET"@ + sp + (path + sp + w1));
    // In bytes.
    let e1 = encode_utf8(l1 + cr);
    let e2 = encode_utf8(l2 + cr);
    let e3 = encode_utf8(l3 + cr);
    let e4 = encode_utf8(l4 + cr);
    let all = (l1 + cr) + nl + (l2 + cr) + nl + (l3 + cr) + nl + (l4 + cr) + nl + cr + nl;
    assert(t =~= all);
    text::lemma_line_feed();
    text::lemma_carriage_return();
    text::lemma_encode_concat(
        (l1 + cr) + nl + (l2 + cr) + nl + (l3 + cr) + nl + (l4 + cr) + nl + cr,
        nl,
    );
    text::lemma_encode_concat(
        (l1 + cr) + nl + (l2 + cr) + nl + (l3 + cr) + nl + (l4 + cr) + nl,
        cr,
    );
    text::lemma_encode_concat((l1 + cr) + nl + (l2 + cr) + nl + (l3 + cr) + nl + (l4 + cr), nl);
    text::lemma_encode_concat((l1 + cr) + nl + (l2 + cr) + nl + (l3 + cr) + nl, l4 + cr);
    text::lemma_encode_concat((l1 + cr) + nl + (l2 + cr) + nl + (l3 + cr), nl);
    text::lemma_encode_concat((l1 + cr) + nl + (l2 + cr) + nl, l3 + cr);
    text::lemma_encode_concat((l1 + cr) + nl + (l2 + cr), nl);
    text::lemma_encode_concat((l1 + cr) + nl, l2 + cr);
    text::lemma_encode_concat(l1 + cr, nl);
    text::lemma_encode_concat(l4, cr);
    text::lemma_line_bytes(l1 + cr);
    text::lemma_line_bytes(l2 + cr);
    text::lemma_line_bytes(l3 + cr);
    text::lemma_line_bytes(l4 + cr);
    text::lemma_encode_len(l2 + cr);
    text::lemma_encode_len(l3 + cr);
    text::lemma_encode_len(l4 + cr);
    let lf = seq![10u8];
    let b = encode_utf8(t);
    assert(b =~= e1 + lf + e2 + lf + e3 + lf + e4 + lf + seq![13u8, 10u8]);
    lemma_five_lines(e1, e2, e3, e4);
    lemma_line(l1 + cr, t2);
    assert(t =~= l1 + cr + nl + t2);
    encode_utf8_valid_utf8(l1 + cr);
    encode_utf8_decode_utf8(l1 + cr);
}

/// What `field_in` finds in some words: the value of the first one that begins
/// with the key and an equals sign.
proof fn lemma_field_in(w: Seq<Seq<char>>, key: Seq<char>)
    ensures
        match field_in(w, key) {
            Some(v) => exists|i: int|
                {
                    &&& 0 <= i < w.len()
                    &&& #[trigger] w[i] == key + seq!['='] + v
                    &&& forall|j: int|
                        0 <= j < i ==> !text::begins(#[trigger] w[j], key + seq!['='])
                },
            None => forall|j: int|
                0 <= j < w.len() ==> !text::begins(#[trigger] w[j], key + seq!['=']),
        },
    decreases w.len(),
{
    let k = key + seq!['='];
    if w.len() > 0 {
        let n = key.len() as int;
        if text::begins(w[0], k) {
            assert(w[0].subrange(0, n + 1)[n] == '=');
            assert(w[0].subrange(0, n) =~= w[0].subrange(0, n + 1).take(n));
            assert(k.take(n) =~= key);
        }
        match word_value(w[0], key) {
            Some(v) => {
                assert(w[0] =~= key + seq!['='] + v) by {
                    assert forall|i: int| 0 <= i < n implies w[0][i] == key[i] by {
                        assert(w[0].subrange(0, n)[i] == w[0][i]);
                    }
                }
            },
            None => {
                let t = w.drop_first();
                lemma_field_in(t, key);
                assert forall|j: int| 1 <= j < w.len() implies w[j] == #[trigger] t[j - 1] by {}
                match field_in(t, key) {
                    Some(v) => {
                        let i = choose|i: int|
                            {
                                &&& 0 <= i < t.len()
                                &&& #[trigger] t[i] == key + seq!['='] + v
                                &&& forall|j: int|
                                    0 <= j < i ==> !text::begins(
                                        #[trigger] t[j],
                                        key + seq!['='],
                                    )
                            };
                        assert(w[i + 1] == key + seq!['='] + v);
                        assert forall|j: int| 0 <= j < i + 1 implies !text::begins(
                            #[trigger] w[j],
                            k,
                        ) by {
                            if j > 0 {
                                assert(w[j] == t[j - 1]);
                            }
                        }
                    },
                    None => {
                        assert forall|j: int| 0 <= j < w.len() implies !text::begins(
                            #[trigger] w[j],
                            k,
                        ) by {
                            if j > 0 {
                                assert(w[j] == t[j - 1]);
                            }
                        }
                    },
                }
            },
        }
    }
}

/// The value of a key in a text is what stands behind the equals sign in the
/// first word that begins with the key and an equals sign; without such a word
/// there is none.
pub proof fn a_field_is_in_the_first_word_with_its_key(
    body: Seq<char>,
    key: Seq<char>,
    v: Seq<char>,
    i: int,
)
    requires
        0 <= i < text::words_of(body).len(),
        forall|j: int|
            0 <= j < i ==> !text::begins(#[trigger] text::words_of(body)[j], key + seq!['=']),
    ensures
        text::words_of(body)[i] == key + seq!['='] + v ==> field_of(body, key) == Some(v),
        i == text::words_of(body).len() - 1 && !text::begins(
            text::words_of(body)[i],
            key + seq!['='],
        ) ==> field_of(body, key) is None,
{
    let w = text::words_of(body);
    let k = key + seq!['='];
    lemma_field_in(w, key);
    if w[i] == k + v {
        assert(w[i].subrange(0, k.len() as int) =~= k);
        assert(text::begins(w[i], k));
        let u = field_of(body, key)->0;
        let m = choose|m: int|
            {
                &&& 0 <= m < w.len()
                &&& #[trigger] w[m] == k + u
                &&& forall|j: int| 0 <= j < m ==> !text::begins(#[trigger] w[j], k)
            };
        assert(w[m].subrange(0, k.len() as int) =~= k);
        assert(m == i);
        assert((k + u).skip(k.len() as int) =~= u);
        assert((k + v).skip(k.len() as int) =~= v);
    } else if field_of(body, key) is Some {
        let u = field_of(body, key)->0;
        let m = choose|m: int|
            {
                &&& 0 <= m < w.len()
                &&& #[trigger] w[m] == k + u
                &&& forall|j: int| 0 <= j < m ==> !text::begins(#[trigger] w[j], k)
            };
        assert(w[m].subrange(0, k.len() as int) =~= k);
    }
}

/// A text without words has no values.
pub proof fn an_empty_text_has_no_fields(body: Seq<char>, key: Seq<char>)
    requires
        text::words_of(body).len() == 0,
    ensures
        field_of(body, key) is None,
{
}

/// A header line is a name, a colon and a value, with white space around
/// either; its name is matched in any case. A line without a colon is none.
pub proof fn header_lines_are_a_name_and_a_value(
    k: Seq<char>,
    v: Seq<char>,
    name: Seq<char>,
)
    requires
        forall|i: int| 0 <= i < k.len() ==> #[trigger] k[i] != ':',
    ensures
        line_value(k + seq![':'] + v, name) == (if text::lowered(text::trimmed(k))
            == text::lowered(name) {
            Some(text::trimmed(v))
        } else {
            None
        }),
        line_value(k, name) is None,
{
    let line = k + seq![':'] + v;
    let n = k.len() as int;
    assert forall|i: int| 0 <= i < n implies line[i] != ':' by {
        assert(line[i] == k[i]);
    }
    assert(line[n] == ':');
    text::lemma_find_is(line, ':', n);
    assert(line.take(n) =~= k);
    assert(line.skip(n + 1) =~= v);
    text::lemma_find_is(k, ':', n);
}

/// What `header_in` finds: the first line that has the name.
proof fn lemma_header_in(lines: Seq<Seq<char>>, name: Seq<char>, i: int)
    requires
        0 <= i <= lines.len(),
        forall|j: int| 0 <= j < i ==> line_value(#[trigger] lines[j], name) is None,
    ensures
        i < lines.len() && line_value(lines[i], name) is Some ==> header_in(lines, name)
            == line_value(lines[i], name),
        i == lines.len() ==> header_in(lines, name) is None,
    decreases lines.len(),
{
    if i > 0 {
        let t = lines.drop_first();
        assert(line_value(lines[0], name) is None);
        assert forall|j: int| 0 <= j < i - 1 implies line_value(#[trigger] t[j], name) is None by {
            assert(t[j] == lines[j + 1]);
        }
        lemma_header_in(t, name, i - 1);
        if i < lines.len() {
            assert(t[i - 1] == lines[i]);
        }
    }
}

/// A header's value is that of the first line that has its name; the first
/// line of a head is none, whatever it holds.
pub proof fn a_header_is_the_first_line_with_its_name(
    head: Seq<char>,
    name: Seq<char>,
    i: int,
)
    requires
        1 <= i <= text::lines_of(head).len(),
        forall|j: int|
            1 <= j < i ==> line_value(#[trigger] text::lines_of(head)[j], name) is None,
    ensures
        i < text::lines_of(head).len() && line_value(text::lines_of(head)[i], name) is Some
            ==> header_of(head, name) == line_value(text::lines_of(head)[i], name),
        i == text::lines_of(head).len() ==> header_of(head, name) is None,
{
    let lines = text::lines_of(head);
    let t = lines.drop_first();
    assert forall|j: int| 0 <= j < i - 1 implies line_value(#[trigger] t[j], name) is None by {
        assert(t[j] == lines[j + 1]);
    }
    lemma_header_in(t, name, i - 1);
    if i < lines.len() {
        assert(t[i - 1] == lines[i]);
    }
}

/// The two terminators of a head are CR LF CR LF and LF LF.
pub proof fn terminators_are_blank_lines(buf: Seq<u8>, e: int)
    ensures
        crlf_ends_at(buf, e) <==> 4 <= e <= buf.len() && buf[e - 4] == 13 && buf[e - 3] == 10
            && buf[e - 2] == 13 && buf[e - 1] == 10,
        lf_ends_at(buf, e) <==> 2 <= e <= buf.len() && buf[e - 2] == 10 && buf[e - 1] == 10,
{
    let four = seq![13u8, 10u8, 13u8, 10u8];
    let two = seq![10u8, 10u8];
    if 4 <= e <= buf.len() {
        let s = buf.subrange(e - 4, e);
        assert(s[0] == buf[e - 4] && s[1] == buf[e - 3] && s[2] == buf[e - 2] && s[3] == buf[e
            - 1]);
        if buf[e - 4] == 13 && buf[e - 3] == 10 && buf[e - 2] == 13 && buf[e - 1] == 10 {
            assert(s =~= four);
        }
    }
    if 2 <= e <= buf.len() {
        let s = buf.subrange(e - 2, e);
        assert(s[0] == buf[e - 2] && s[1] == buf[e - 1]);
        if buf[e - 2] == 10 && buf[e - 1] == 10 {
            assert(s =~= two);
        }
    }
}

/// Without the end of a head there is no response: more is read while more can
/// come; a close before the first byte is no answer, and one after it cuts the
/// head off or breaks the connection.
pub proof fn a_head_that_does_not_end_is_no_response(buf: Seq<u8>)
    requires
        head_end_of(buf) is None,
    ensures
        next_of(buf, End::Open) is Read,
        buf.len() == 0 ==> next_of(buf, End::Eof) is Nothing && next_of(buf, End::Reset) is Nothing,
        buf.len() > 0 ==> next_of(buf, End::Eof) is CutOff && next_of(buf, End::Reset) is Broken,
{
}

/// A response is read by its head. Its status is the second word of the head;
/// without one the head is all there is. A 101 has no body. A body is as long
/// as the head says, and ends earlier only where the peer closes; without a
/// length it is what comes until the peer closes. A reset before the end of
/// the body breaks it.
pub proof fn responses_are_read_by_their_head(buf: Seq<u8>, end: End, at: int, crlf: bool)
    requires
        head_end_of(buf) == Some((at, crlf)),
    ensures
        ({
            let head = text::lossy_text(buf.take(at));
            let w = text::words_of(head);
            let len = match header_of(head, "content-length"@) {
                Some(v) => text::number(v, usize::MAX as nat),
                None => None,
            };
            let status = if w.len() >= 2 {
                text::number(w[1], 65535)
            } else {
                None
            };
            &&& 2 <= at <= buf.len()
            &&& status is None ==> next_of(buf, end) == NextView::NoStatus(head)
            &&& status matches Some(s) ==> {
                &&& s == 101 ==> next_of(buf, end) == (NextView::Response {
                    status: 101,
                    head,
                    body: seq![],
                    crlf,
                    used: at,
                })
                &&& s != 101 ==> (len matches Some(n) ==> (at + n <= buf.len() ==> next_of(
                    buf,
                    end,
                ) == (NextView::Response {
                    status: s as u16,
                    head,
                    body: buf.subrange(at, at + n),
                    crlf,
                    used: at + n,
                })))
                &&& s != 101 && (len is None || at + len->0 > buf.len()) ==> {
                    &&& end == End::Open ==> next_of(buf, end) is Read
                    &&& end == End::Reset ==> next_of(buf, end) is Broken
                    &&& end == End::Eof ==> next_of(buf, end) == (NextView::Response {
                        status: s as u16,
                        head,
                        body: buf.subrange(at, buf.len() as int),
                        crlf,
                        used: buf.len() as int,
                    })
                }
            }
        }),
{
    a_head_ends_at_the_first_terminator(buf);
    let head = text::lossy_text(buf.take(at));
    let rest = buf.skip(at);
    assert(rest =~= buf.subrange(at, buf.len() as int));
    match content_length(head) {
        Some(n) => {
            if at + n <= buf.len() {
                assert(rest.take(n as int) =~= buf.subrange(at, at + n));
            } else {
                assert(rest.take(rest.len() as int) =~= rest);
            }
        },
        None => {},
    }
}

/// The text of a response is its body, and the backend that it came from is
/// the value of `backend` in that text.
pub proof fn a_response_names_its_backend_in_its_body(a: Resp)
    ensures
        a.body_text() == text::lossy_text(a.body@),
        a.backend_name() == field_of(text::lossy_text(a.body@), "backend"@),
{
}

/// The smaller of two numbers is one of them and no more than either.
pub proof fn the_smaller_is_no_more_than_either(a: int, b: int)
    ensures
        least(a, b) <= a,
        least(a, b) <= b,
        least(a, b) == a || least(a, b) == b,
{
}

} // verus!
