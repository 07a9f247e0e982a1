use stormlb::router::{answer as route, find_head_end, host_of, request_path, Answer, RouteTable};
use stormlb::suite::backend::{answer, body_part, read_request, Connection, Request, Sent, Turn};
use stormlb::suite::http::{field, get, head_end, header, response, End, Next, Resp};

#[test]
fn the_head_ends_at_the_first_terminator() {
    assert_eq!(head_end(b"HTTP/1.1 200 OK\r\na: b\r\n\r\nbody\n\n"), Some((25, true)));
    assert_eq!(head_end(b"HTTP/1.1 200 OK\na: b\n\nbody\r\n\r\n"), Some((22, false)));
    assert_eq!(head_end(b"HTTP/1.1 200 OK\r\n"), None);
}

#[test]
fn headers_and_fields_are_found() {
    let head = "HTTP/1.1 200 OK\r\nContent-Length: 12\r\n\r\n";
    assert_eq!(header(head, "content-length").as_deref(), Some("12"));
    assert_eq!(field("backend=a host=x req=2", "req").as_deref(), Some("2"));
    assert_eq!(field("backend=a", "host"), None);
}

#[test]
fn fields_and_headers_at_the_edges() {
    assert_eq!(field("backends=x backend=a=b", "backend").as_deref(), Some("a=b"));
    assert_eq!(field("got=", "got").as_deref(), Some(""));
    assert_eq!(field("", "got"), None);
    // The first line is no header, and a line without a colon is none.
    assert_eq!(header("a: 1\r\nb\r\nA : 2\r\n", "a").as_deref(), Some("2"));
    assert_eq!(header("", "a"), None);
}

#[test]
fn a_request_is_written_out() {
    assert_eq!(
        get("h.lo", "/id"),
        b"GET /id HTTP/1.1\r\nHost: h.lo\r\nUser-Agent: stormlb-test\r\nConnection: close\r\n\r\n"
    );
}

fn whole(buf: &[u8], end: End) -> (Resp, usize) {
    match response(buf, end) {
        Next::Response(r, n) => (r, n),
        _ => panic!("no response in {:?}", String::from_utf8_lossy(buf)),
    }
}

#[test]
fn a_response_is_read_to_its_length() {
    let b = b"HTTP/1.1 200 OK\r\ncontent-length: 5\r\n\r\nhello more";
    let (r, n) = whole(b, End::Open);
    assert_eq!((r.status, r.crlf, r.body.as_slice(), n), (200, true, &b"hello"[..], 43));
    assert_eq!(r.head, "HTTP/1.1 200 OK\r\ncontent-length: 5\r\n\r\n");
    assert!(matches!(response(&b[..40], End::Open), Next::Read));
    assert!(matches!(response(&b[..40], End::Reset), Next::Broken));
    assert_eq!(whole(&b[..40], End::Eof).0.body, b"he");
}

#[test]
fn a_response_without_a_length_goes_to_the_end() {
    let b = b"HTTP/1.1 200 OK\n\nall of it";
    assert!(matches!(response(b, End::Open), Next::Read));
    assert!(matches!(response(b, End::Reset), Next::Broken));
    let (r, n) = whole(b, End::Eof);
    assert_eq!((r.crlf, r.body.as_slice(), n), (false, &b"all of it"[..], b.len()));
}

#[test]
fn an_upgrade_has_no_body() {
    let b = b"HTTP/1.1 101 Switching Protocols\r\ncontent-length: 9\r\n\r\nearly";
    let (r, n) = whole(b, End::Open);
    assert_eq!((r.status, r.body.len(), n), (101, 0, b.len() - 5));
}

#[test]
fn a_response_that_is_none() {
    assert!(matches!(response(b"", End::Open), Next::Read));
    assert!(matches!(response(b"", End::Eof), Next::Nothing));
    assert!(matches!(response(b"", End::Reset), Next::Nothing));
    assert!(matches!(response(b"HTTP", End::Eof), Next::CutOff));
    assert!(matches!(response(b"HTTP", End::Reset), Next::Broken));
    assert!(matches!(response(b"HTTP/1.1 x\r\n\r\n", End::Open), Next::NoStatus(h) if h == "HTTP/1.1 x\r\n\r\n"));
    assert!(matches!(response(b"HTTP/1.1\r\n\r\n", End::Open), Next::NoStatus(_)));
    assert!(matches!(response(b"HTTP/1.1 65536 x\r\n\r\n", End::Open), Next::NoStatus(_)));
}

fn request(b: &[u8]) -> Request {
    read_request(b).unwrap_or_else(|| panic!("no head"))
}

#[test]
fn the_backend_reads_a_request() {
    let q = request(b"POST /up HTTP/1.1\r\nHost: h.lo\r\nContent-Length: 7\r\nConnection: Close\r\n\r\nabc");
    assert_eq!((q.path.as_str(), q.host.as_str(), q.want, q.close, q.upgrade), ("/up", "h.lo", 7, true, false));
    assert_eq!(q.head_len, 71);
    assert!(request(b"GET /ws HTTP/1.1\r\nUpgrade: x\r\n\r\n").upgrade);
    let q = request(b"\r\n\r\n");
    assert_eq!((q.path.as_str(), q.host.as_str(), q.want, q.close), ("", "", 0, false));
    assert!(read_request(b"GET / HTTP/1.1\r\n").is_none());
    assert_eq!((body_part(3, 7, 0), body_part(9, 7, 3), body_part(0, 0, 0)), (3, 4, 0));
}

#[test]
fn the_backend_says_who_it_is() {
    let mut q = request(b"GET /id HTTP/1.1\r\nHost: h.lo\r\nConnection: close\r\n\r\n");
    let bytes = match answer("a", &q, 2, 0) {
        Sent::Plain(b, true) => b,
        _ => panic!("a plain answer that closes"),
    };
    assert_eq!(
        String::from_utf8(bytes.clone()).unwrap(),
        "HTTP/1.1 200 OK\r\ncontent-type: text/plain\r\ncontent-length: 41\r\nconnection: close\r\n\r\n\
         backend=a host=h.lo path=/id req=2 got=0\n"
    );
    // What it sends is what the suites read.
    let (r, n) = whole(&bytes, End::Open);
    assert_eq!((r.status, r.crlf, n), (200, true, bytes.len()));
    assert_eq!(r.backend().as_deref(), Some("a"));
    assert_eq!(field(&r.text(), "host").as_deref(), Some("h.lo"));
    assert_eq!(field(&r.text(), "req").as_deref(), Some("2"));
    q.close = false;
    assert!(matches!(answer("a", &q, 1, 0), Sent::Plain(b, false) if !String::from_utf8_lossy(&b).contains("connection")));
    q.path = "/stream".into();
    match answer("a", &q, 1, 0) {
        Sent::Streamed(first, second) => {
            assert!(first.ends_with(b"\r\n\r\nfirst\n"));
            assert_eq!(second, b"second\n");
        }
        _ => panic!("a stream"),
    }
    q.upgrade = true;
    assert!(matches!(answer("a", &q, 1, 0), Sent::Upgraded(b) if b.starts_with(b"HTTP/1.1 101 ")));
}

#[test]
fn bodies_that_are_not_utf8_are_read_all_the_same() {
    let r = Resp { status: 200, head: String::new(), body: b"backend=\xffa x".to_vec(), crlf: true };
    assert_eq!(r.text(), "backend=\u{fffd}a x");
    assert_eq!(r.backend().as_deref(), Some("\u{fffd}a"));
}

#[test]
fn a_connection_is_served_request_by_request() {
    let mut c = Connection::new();
    assert!(matches!(c.turn("a"), Turn::Read));
    c.arrived(b"POST /1 HTTP/1.1\r\nHost: h\r\nContent-Length: 4\r\n\r\nab");
    assert!(matches!(c.turn("a"), Turn::Request));
    assert!(matches!(c.turn("a"), Turn::Read));
    assert!(c.buf.is_empty());
    c.arrived(b"cdGET /2 HTTP/1.1\r\nHost: h\r\nConnection: close\r\n\r\n");
    match c.turn("a") {
        Turn::Send(Sent::Plain(b, false)) => {
            assert!(String::from_utf8(b).unwrap().ends_with("backend=a host=h path=/1 req=1 got=4\n"))
        }
        _ => panic!("the first request is whole"),
    }
    assert!(matches!(c.turn("a"), Turn::Request));
    match c.turn("a") {
        Turn::Send(Sent::Plain(b, true)) => {
            assert!(String::from_utf8(b).unwrap().ends_with("backend=a host=h path=/2 req=2 got=0\n"))
        }
        _ => panic!("the second request is whole"),
    }
    let mut c = Connection::new();
    c.arrived(b"GET /ws HTTP/1.1\r\nUpgrade: x\r\nContent-Length: 9\r\n\r\nearly");
    assert!(matches!(c.turn("a"), Turn::Request));
    assert!(matches!(c.turn("a"), Turn::Send(Sent::Upgraded(_))));
    assert_eq!(c.buf, b"early");
}

#[test]
fn the_router_reads_what_the_suites_write() {
    let b = get("H.Run.lo", "/id?x=1");
    assert_eq!(find_head_end(&b), Some(b.len()));
    assert_eq!(host_of(&b).as_deref(), Some("h.run.lo"));
    assert_eq!(request_path(&b).as_deref(), Some("/id"));
    let mut t = RouteTable::new();
    t.insert("h.run.lo".into(), "10.0.0.1:80".into());
    assert!(matches!(route(&b, &t), Answer::Forward(to) if to == "10.0.0.1:80"));
    let no_route = match route(&get("x.lo", "/"), &t) {
        Answer::Respond(b) => b,
        Answer::Forward(to) => panic!("forwarded to {to}"),
    };
    // What the router answers is what the suites read.
    let (r, n) = whole(&no_route, End::Open);
    assert_eq!((r.status, r.crlf, n), (404, true, no_route.len()));
    assert_eq!(r.text(), "no route for host x.lo\n");
}

#[test]
fn what_follows_a_response_is_left_for_the_next() {
    let one = b"HTTP/1.1 200 OK\r\ncontent-length: 2\r\n\r\nok";
    let mut two = one.to_vec();
    two.extend_from_slice(b"HTTP/1.1 404 x\n\n");
    for end in [End::Open, End::Eof, End::Reset] {
        let (r, n) = whole(&two, end);
        assert_eq!((r.status, r.body.as_slice(), n), (200, &b"ok"[..], one.len()));
    }
    assert_eq!(head_end(&two), head_end(one));
}

#[test]
fn requests_are_read_back_as_they_were_written() {
    let b = get("h.lo", "/p?q=1");
    assert_eq!(head_end(&b), Some((b.len(), true)));
    assert_eq!(find_head_end(&b), Some(b.len()));
    assert_eq!(request_path(&b).as_deref(), Some("/p"));
    assert_eq!(host_of(&b).as_deref(), Some("h.lo"));
    let t = String::from_utf8(b).unwrap();
    assert_eq!(t.split_whitespace().nth(1), Some("/p?q=1"));
    assert_eq!(header(&t, "host").as_deref(), Some("h.lo"));
    assert_eq!(header(&t, "connection").as_deref(), Some("close"));
}
