use stormlb::suite::http::{Fault, Reply, Resp};
use stormlb::suite::medium::{
    backendref, concurrent, concurrent_check, concurrent_connections, deleted, first_came, head_limit,
    headless, headless_skipped, healthz_claimed, healthz_crlf, host_case_and_port, large_body,
    large_head, long_head, loud_host, many_backend, many_check, many_name, no_data_plane, no_first,
    no_host, no_host_request, no_restarts, program, route_update, sticky, sticky_request, sticky_saw,
    streaming, time_left, unknown_host, upgraded, DeadWatch, ManyWatch, Pipe, PipeStep, LONG_HEAD,
};
use stormlb::suite::probe::{
    crashes_metric, metric, parse_metrics, restarts_metric, served, unrouted, Supervised,
};
use stormlb::suite::report::Outcome;
use stormlb::suite::short::{cleanup, healthz, route_by_host, route_removed, supervised};

const SEC: u128 = 1_000_000_000;
const MS: u128 = 1_000_000;

fn ok(status: u16, body: &str) -> Reply {
    Reply::Answer(Resp { status, head: "head\n\n".into(), body: body.as_bytes().to_vec(), crlf: true })
}

fn fault(why: &str, reset: bool) -> Reply {
    Reply::Failed(Fault { why: why.into(), debug: format!("Kind({why:?})"), reset })
}

fn pass(o: Outcome) -> String {
    match o {
        Outcome::Pass(m) => m,
        o => panic!("{}", o.status()),
    }
}

fn fail(o: Outcome) -> String {
    match o {
        Outcome::Fail(m) => m,
        o => panic!("{}", o.status()),
    }
}

/// The supervisor's view, as its reader puts it together.
fn view(m: &str) -> Option<Supervised> {
    let number = |name: &str| metric(m, name).and_then(|v| v.parse::<f64>().ok()).map(|v| v as u64);
    parse_metrics(m, number(restarts_metric()), number(crashes_metric()))
}

#[test]
fn stormd_metrics_are_read_for_stormlb_only() {
    let m = "# TYPE stormd_process_state gauge\n\
             stormd_process_state{container=\"stormlb\",process=\"stormlb\",state=\"running\"} 1\n\
             stormd_process_state{container=\"stormlb\",process=\"stormlb\",state=\"failed\"} 0\n\
             stormd_process_restarts_total{container=\"stormlb\",process=\"stormlb\"} 3\n\
             stormd_process_restarts_total{container=\"x\",process=\"other\"} 9\n\
             stormd_process_crashes_total{container=\"stormlb\",process=\"stormlb\"} 1\n";
    let s = view(m).unwrap();
    assert!(s.running);
    assert_eq!((s.restarts, s.crashes), (3, 1));
    assert!(view("stormd_up 1\n").is_none());
}

#[test]
fn metrics_at_the_edges() {
    let m = "stormd_process_restarts_total{process=\"stormlb\"} 2.0\n\
             stormd_process_state{process=\"stormlb\",state=\"running\"} 0\n";
    let s = view(m).unwrap();
    assert_eq!(s, Supervised { running: false, restarts: 2, crashes: 0 });
    assert_eq!(s.show(), format!("{s:?}"));
    assert!(view("stormd_process_restarts_total{process=\"stormlb\"} x\n").is_none());
}

#[test]
fn a_host_is_watched_until_it_is_served() {
    let mut w = served("h.lo", "a", 3 * SEC);
    assert!(w.goes_on(3 * SEC - 1) && !w.goes_on(3 * SEC));
    assert_eq!(w.failure(), "h.lo not served by backend a within 3 s; last: nothing");
    assert!(!w.saw(&ok(200, "backend=b \n")));
    assert_eq!(w.failure(), "h.lo not served by backend a within 3 s; last: 200 \"backend=b\"");
    assert!(!w.saw(&ok(500, "backend=a")));
    assert!(!w.saw(&Reply::Closed));
    assert!(w.failure().ends_with("last: the connection closed with no response"));
    assert!(!w.saw(&fault("timed out", false)));
    assert!(w.failure().ends_with("last: timed out"));
    assert!(w.saw(&ok(200, "backend=a host=h.lo")));
}

#[test]
fn a_host_is_watched_until_it_is_a_404() {
    let mut w = unrouted("h.lo", SEC);
    assert!(!w.saw(&ok(404, "not here")));
    assert_eq!(w.failure(), "h.lo still routed after 1 s; last: 404 \"not here\"");
    assert!(w.saw(&ok(404, "no route for host h.lo\n")));
}

#[test]
fn the_short_checks() {
    assert_eq!(pass(healthz("r:80", &ok(200, "router alive\n"))), "r:80 answers 200 router alive");
    assert_eq!(fail(healthz("r:80", &ok(200, "x\n"))), "r:80 answered 200 \"x\\n\"");
    assert_eq!(fail(healthz("r:80", &Reply::Closed)), "r:80 closed with no response");
    assert_eq!(fail(healthz("r:80", &fault("refused", false))), "r:80: refused");
    let s = Supervised { running: true, restarts: 1, crashes: 2 };
    let sd = Some("s:180".to_string());
    assert_eq!(pass(supervised(&sd, &Ok(s))), "stormd on s:180: running, 1 restarts, 2 crashes");
    let down = Supervised { running: false, ..s };
    assert_eq!(
        fail(supervised(&sd, &Ok(down))),
        "stormd on s:180 does not report stormlb running: Supervised { running: false, restarts: 1, crashes: 2 }"
    );
    assert_eq!(fail(supervised(&sd, &Err("no".into()))), "no");
    assert!(matches!(supervised(&None, &Err("no".into())), Outcome::Skip(_)));
    assert_eq!(pass(route_by_host("h", "b:1", &Ok(1500 * MS + 1))), "h -> b:1 after 1500 ms");
    assert_eq!(fail(route_by_host("h", "b:1", &Err("late".into()))), "late");
    assert_eq!(pass(route_removed(&Ok(20 * MS))), "404 20 ms after the delete");
    assert_eq!(pass(cleanup(&Ok(3), &Ok(0))), "3 objects deleted, none left");
    assert_eq!(fail(cleanup(&Ok(3), &Ok(2))), "2 objects labelled with this run are still listed");
    assert_eq!(fail(cleanup(&Err("e".into()), &Ok(0))), "e");
}

#[test]
fn the_routers_own_answers_are_checked() {
    assert_eq!(no_host_request(), b"GET / HTTP/1.0\r\n\r\n");
    assert_eq!(pass(no_host(&ok(400, " needs a Host\n"))), "400 \"needs a Host\"");
    assert_eq!(fail(no_host(&ok(200, "x"))), "answered 200 \"x\"");
    assert_eq!(fail(no_host(&Reply::Closed)), "closed with no response");
    assert_eq!(pass(unknown_host("h.lo", &ok(404, "no route for host h.lo\n"))), "404 \"no route for host h.lo\"");
    assert_eq!(fail(unknown_host("h.lo", &ok(404, "no route for host x"))), "answered 404 \"no route for host x\"");
    assert_eq!(pass(healthz_crlf(&ok(200, ""))), "the head ends in CRLF CRLF");
    let lf = Reply::Answer(Resp { status: 200, head: "a\n\n".into(), body: vec![], crlf: false });
    assert_eq!(
        fail(healthz_crlf(&lf)),
        "the /healthz head uses bare LF line endings (stormlb#5): \"a\\n\\n\""
    );
}

#[test]
fn restarts_are_noticed() {
    let s = Supervised { running: true, restarts: 1, crashes: 0 };
    assert_eq!(
        pass(no_restarts(true, &Some(Ok(s)), &Ok(s))),
        "running throughout: 1 restarts, 0 crashes, unchanged"
    );
    let now = Supervised { restarts: 2, ..s };
    assert!(fail(no_restarts(true, &Some(Ok(s)), &Ok(now))).starts_with("stormlb under stormd was Supervised"));
    assert_eq!(
        fail(no_restarts(true, &Some(Err("x".into())), &Ok(now))),
        "stormd unreadable at the start: x"
    );
    assert!(matches!(no_restarts(false, &Some(Ok(s)), &Ok(s)), Outcome::Skip(_)));
    assert!(matches!(no_restarts(true, &None, &Ok(s)), Outcome::Skip(_)));
}

#[test]
fn routing_is_checked() {
    assert_eq!(pass(program(&Ok(()), &Ok(5 * MS))), "two hosts on two backends, served after 5 ms");
    assert!(matches!(program(&Err("e".into()), &Ok(0)), Outcome::Infra(m) if m == "cannot create the HTTPRoute: e"));
    assert_eq!(pass(healthz_claimed(&ok(200, "backend=a path=/healthz"))), "proxied to backend a");
    assert_eq!(fail(healthz_claimed(&ok(200, "router alive"))), "answered 200 \"router alive\", not backend a");
    assert_eq!(loud_host("a.run.lo"), "A.RUN.LO:80");
    assert_eq!(pass(host_case_and_port("A:80", &ok(200, "backend=a"))), "Host \"A:80\" reached backend a");
    assert_eq!(fail(host_case_and_port("A:80", &fault("x", false))), "fetch: x");
    assert_eq!(
        sticky_request("/1", "h"),
        b"GET /1 HTTP/1.1\r\nHost: h\r\nUser-Agent: stormlb-test\r\n\r\n"
    );
}

#[test]
fn a_connection_stays_on_its_backend() {
    let saw = |body: &str| sticky_saw("/1", &ok(200, body)).unwrap_or_else(|_| panic!("an answer"));
    let (a1, a2, b1) = (saw("backend=a req=1"), saw("backend=a req=2"), saw("backend=b req=1"));
    assert!(pass(sticky(&a1, &a2, "hb")).starts_with("the second request (Host hb) stayed on backend a"));
    assert!(fail(sticky(&a1, &b1, "hb")).starts_with("the second request went to backend b"));
    assert_eq!(
        fail(sticky(&a1, &saw(""), "hb")),
        "backends and request numbers seen: [(\"a\", \"1\"), (\"\", \"\")]"
    );
    match sticky_saw("/2", &Reply::Closed) {
        Err(o) => assert_eq!(fail(o), "closed before the response to /2"),
        Ok(_) => panic!("it was closed"),
    }
}

#[test]
fn the_splice_is_checked() {
    assert!(first_came(b"HTTP/1.1 200 OK\r\n\r\nfirst\n") && !first_came(b"first"));
    assert_eq!(fail(no_first(b"x\n")), "closed before `first`: \"x\\n\"");
    assert_eq!(pass(streaming(b"first\nsecond\n", 2 * MS, 1500 * MS)), "`first` after 2 ms, `second` after 1500 ms");
    assert!(fail(streaming(b"first\nsecond\n", SEC, 2 * SEC)).starts_with("`first` arrived after 1000 ms"));
    assert_eq!(fail(streaming(b"first\n", 0, 0)), "`second` never arrived: \"first\\n\"");
    assert!(upgraded(&ok(101, "")).is_none());
    assert_eq!(fail(upgraded(&ok(200, "x")).unwrap()), "answered 200 \"x\", not 101");
    assert!(String::from_utf8(large_head("h")).unwrap().contains("\r\nContent-Length: 8388608\r\n"));
    assert_eq!(pass(large_body(&ok(200, "backend=a got=8388608"), 9 * MS)), "8388608 bytes through in 9 ms");
    assert_eq!(fail(large_body(&ok(200, "backend=a got=1"), 0)), "200 \"backend=a got=1\"");
}

#[test]
fn a_head_without_an_end_is_cut_off() {
    let h = long_head("h.lo");
    assert!(h.starts_with("GET / HTTP/1.1\r\nHost: h.lo\r\nX-Pad-0: aaa"));
    assert!(h.len() >= LONG_HEAD && h.len() < LONG_HEAD + 120 && !h.contains("\r\n\r\n"));
    assert_eq!(pass(head_limit(17410, &Ok(vec![]), 3, 3)), "17410 bytes of unterminated head: closed, nothing sent on");
    assert_eq!(fail(head_limit(1, &Ok(vec![]), 3, 4)), "closed, but the backend saw a request");
    assert_eq!(fail(head_limit(1, &Ok(b"HTTP".to_vec()), 3, 3)), "answered: \"HTTP\"");
    assert_eq!(
        fail(head_limit(1, &Ok(vec![b'x'; 200]), 3, 3)),
        format!("answered: \"{}\"", "x".repeat(120))
    );
    assert_eq!(fail(head_limit(1, &Err("timed out".into()), 3, 3)), "still open 5 s after 1 bytes of head: timed out");
}

#[test]
fn a_pipe_echoes_three_rounds() {
    let mut p = Pipe::new("r");
    assert_eq!((p.ping.as_str(), p.round), ("ping r both ways\n", 1));
    let ping = p.ping.clone();
    assert!(matches!(p.look(b"", 0), PipeStep::Read));
    assert!(matches!(p.look(ping.as_bytes(), 0), PipeStep::Ping));
    assert!(matches!(p.look(ping.as_bytes(), 0), PipeStep::Read));
    assert!(matches!(p.look(ping.repeat(2).as_bytes(), 0), PipeStep::Ping));
    assert_eq!(fail(p.closed()), "closed in echo round 3");
    match p.look(ping.repeat(3).as_bytes(), 9 * SEC) {
        PipeStep::Over(o) => assert_eq!(pass(o), "101, then three echo rounds through the pipe"),
        _ => panic!("all came back"),
    }
    let mut p = Pipe::new("r");
    match p.look(b"x", 5 * SEC + 1) {
        PipeStep::Over(o) => assert_eq!(fail(o), "echo round 1: got \"x\""),
        _ => panic!("it took too long"),
    }
    assert!(matches!(p.look(b"x", 5 * SEC), PipeStep::Read));
    assert!(matches!(p.look(ping.repeat(2).as_bytes(), 0), PipeStep::Over(Outcome::Fail(_))));
}

#[test]
fn a_dead_backend_closes() {
    let mut w = DeadWatch::new("h", "d:1", 30 * SEC);
    assert!(w.goes_on(0) && !w.goes_on(30 * SEC));
    assert!(w.saw(&ok(404, "no route for host h")).is_none());
    assert_eq!(fail(w.failure()), "never programmed in 30 s; last: 404, not programmed yet");
    assert!(w.saw(&fault("late", false)).is_none());
    assert_eq!(fail(w.failure()), "never programmed in 30 s; last: late");
    let mut over = |r: Reply| w.saw(&r).unwrap_or_else(|| panic!("not over"));
    assert_eq!(pass(over(Reply::Closed)), "h -> d:1 (nothing listening): closed with no response");
    assert_eq!(pass(over(fault("reset", true))), "h -> d:1 (nothing listening): connection reset, no response");
    assert!(fail(over(ok(502, "x"))).starts_with("answered 502 \"x\": README says"));
}

#[test]
fn many_hosts_are_watched_until_each_is_right() {
    let want = vec![("h0".to_string(), "a".to_string()), ("h1".to_string(), "b".to_string())];
    let mut w = ManyWatch::new(want, 30 * SEC);
    assert!(w.goes_on(0) && !w.goes_on(30 * SEC));
    w.round(&vec![ok(200, "backend=a host=h0"), ok(404, "no")]);
    assert_eq!(w.pending, [("h1".to_string(), "b".to_string())]);
    assert_eq!(fail(w.outcome(0)), "1 of 50 hosts not served right after 30 s; last: h1: 404 \"no\"");
    w.round(&vec![]);
    assert_eq!(w.pending.len(), 1);
    w.round(&vec![ok(200, "backend=b host=h1")]);
    assert!(!w.goes_on(0));
    assert_eq!(pass(w.outcome(7 * MS)), "50 hosts, alternating two backends, all right after 7 ms");
}

#[test]
fn a_headless_service_takes_nothing_down() {
    assert!(headless_skipped("h", &ok(404, "no route for host h")).is_none());
    assert_eq!(fail(headless_skipped("h", &ok(200, "x")).unwrap()), "h answered 200 \"x\", expected the router's 404");
    assert_eq!(pass(headless("h", "o", 12 * SEC, &ok(200, "backend=a"))), "h is a 404 after 12 s; o is still served");
    assert_eq!(fail(headless("h", "o", 0, &ok(200, "x"))), "the other routes broke: o answered 200 \"x\"");
    assert_eq!(fail(headless("h", "o", 0, &Reply::Closed)), "the other routes broke: o closed with no response");
}

#[test]
fn the_table_is_checked() {
    assert_eq!(pass(route_update("h", &Ok(MS))), "h moved from backend a to b after 1 ms");
    assert_eq!(pass(backendref("h", "c:1", &Ok(MS))), "h -> Service svc-c (c:1) -> backend c after 1 ms");
    assert!(matches!(no_data_plane("c:1", "x"), Outcome::Skip(m) if m.contains("c:1 does not reach its Endpoints")));
    assert_eq!((many_name(7).as_str(), many_backend(7), many_backend(8)), ("m7", "b", "a"));
    assert_eq!(many_check("h", "a", &ok(200, "backend=a host=h")), None);
    assert_eq!(many_check("h", "a", &ok(200, "backend=a host=x")).as_deref(), Some("h: 200 \"backend=a host=x\""));
    assert_eq!(many_check("h", "a", &Reply::Closed).as_deref(), Some("h: Ok(None)"));
    assert_eq!(many_check("h", "a", &fault("x", false)).as_deref(), Some("h: Err(Kind(\"x\"))"));
    assert_eq!(
        [None, Some(0), Some(94), Some(400), Some(100_000)].map(concurrent_connections),
        [200, 8, 10, 112, 200]
    );
    assert_eq!(concurrent_check("h", "a", &ok(500, "backend=a")), None);
    assert_eq!(concurrent_check("h", "a", &Reply::Closed).as_deref(), Some("h: closed with no response"));
    assert_eq!(
        pass(concurrent(9, &vec![], 9, 50)),
        "9 concurrent connections over 50 hosts, every one on its own backend"
    );
    assert_eq!(fail(concurrent(8, &vec!["e".into()], 9, 50)), "1 of 9 wrong; first: e");
    assert_eq!((time_left(5 * SEC, SEC), time_left(5 * SEC, 9 * SEC)), (4 * SEC, SEC));
    assert_eq!(pass(deleted(3, 4, MS)), "3 routes deleted; all 4 hosts 404 after 1 ms");
}
