use stormlb::suite::env::{Env, Vars};
use stormlb::suite::hist::Hist;
use stormlb::suite::http::{Reply, Resp};
use stormlb::suite::long::{
    all_over, capacity, goes_on, idle_p50, is_so, margin, max_conns, next_host, plan, ramp_wait,
    route_name, still_pending, trend, wanted, wave, Done, Load, Plan, Wave,
};
use stormlb::suite::probe::Supervised;
use stormlb::suite::report::Outcome;

const SEC: u128 = 1_000_000_000;
const MS: u128 = 1_000_000;

/// The rank of a quantile among so many values.
fn rank(total: u64, q: f64) -> u64 {
    ((total as f64) * q).ceil().max(1.0) as u64
}

fn quantile(h: &Hist, q: f64) -> u64 {
    h.quantile(rank(h.count(), q))
}

#[test]
fn histogram_buckets_are_contiguous_and_within_an_eighth() {
    for v in [0u64, 1, 7, 8, 9, 15, 16, 17, 100, 1000, 123_456, 10_000_000] {
        let i = Hist::index(v);
        assert!(Hist::lower(i) <= v, "{v}: lower {}", Hist::lower(i));
        assert!(v - Hist::lower(i) <= v / 8, "{v}: lower {}", Hist::lower(i));
        assert!(Hist::lower(i + 1) > v, "{v}");
    }
    let mut h = Hist::new();
    (1..=100).for_each(|v| h.add(v));
    assert_eq!(h.count(), 100);
    assert!((44..=50).contains(&quantile(&h, 0.5)));
    assert!((88..=99).contains(&quantile(&h, 0.99)));
}

fn w(n: usize, mix: u64, route_ms: u128, p99_us: u64) -> Wave {
    Wave {
        n,
        mix,
        routes: 1,
        conns: 1,
        route_ms,
        requests: 1,
        errors: 0,
        p50_us: 1,
        p99_us,
        rps: 1,
        drain_ms: 100,
        leftovers: 0,
        restarts: Some(0),
        idle_p50_us: Some(100),
        problem: None,
    }
}

#[test]
fn a_wave_is_compared_with_the_first_of_its_size() {
    assert!(matches!(trend(&[w(0, 1, 1000, 500), w(1, 2, 9000, 90_000), w(2, 1, 1100, 600)], Some(100)), Outcome::Pass(_)));
    match trend(&[w(0, 1, 1000, 500), w(1, 1, 1000, 60_000)], Some(100)) {
        Outcome::Fail(d) => assert!(d.starts_with("wave 1 is the first"), "{d}"),
        _ => panic!("p99 went from 500 us to 60 ms"),
    }
    assert!(matches!(trend(&[], None), Outcome::Infra(_)));
}

#[test]
fn the_trend_says_what_got_slower() {
    let mut slow = w(1, 1, 7001, 500);
    slow.drain_ms = 5201;
    slow.idle_p50_us = Some(2201);
    match trend(&[w(0, 1, 1000, 500), slow], Some(100)) {
        Outcome::Fail(d) => assert_eq!(
            d,
            "wave 1 is the first to regress: route programming 7001 ms, wave 0 took 1000 ms; \
             drain 5201 ms, wave 0 took 100 ms; idle /healthz 2201 us, wave 0 had 100 us; \
             idle /healthz 2201 us, 100 us before the first wave"
        ),
        _ => panic!("it got slower"),
    }
    // Idle latency is held against the first wave of the size, measured
    // before or not, and against what was measured before.
    let idle = |n: usize, us: u64| {
        let mut x = w(n, 1, 1000, 500);
        x.idle_p50_us = Some(us);
        x
    };
    match trend(&[idle(0, 100), idle(1, 9000)], None) {
        Outcome::Fail(d) => {
            assert_eq!(d, "wave 1 is the first to regress: idle /healthz 9000 us, wave 0 had 100 us")
        }
        _ => panic!("it got slower"),
    }
    match trend(&[idle(0, 9000), idle(1, 9000)], Some(100)) {
        Outcome::Fail(d) => {
            assert_eq!(d, "wave 0 is the first to regress: idle /healthz 9000 us, 100 us before the first wave")
        }
        _ => panic!("it got slower"),
    }
    assert!(matches!(trend(&[idle(0, 100), idle(1, 2200)], None), Outcome::Pass(_)));
    // Later waves do not change a failed trend.
    match trend(&[idle(0, 100), idle(1, 9000), idle(2, 99_999), w(3, 2, 1, 1)], None) {
        Outcome::Fail(d) => {
            assert_eq!(d, "wave 1 is the first to regress: idle /healthz 9000 us, wave 0 had 100 us")
        }
        _ => panic!("it got slower"),
    }
    // Exactly double and the floor is no regression.
    match trend(&[w(0, 1, 1000, 500), w(1, 1, 7000, 6000)], Some(100)) {
        Outcome::Pass(d) => assert_eq!(d, "2 waves; none slower than the first wave of its size"),
        _ => panic!("it did not get slower"),
    }
}

#[test]
fn histograms_hold_what_is_added() {
    assert_eq!((Hist::index(u64::MAX), Hist::lower(495)), (495, 15 << 60));
    assert_eq!((Hist::lower(496), Hist::lower(16), Hist::index(16)), (0, 16, 16));
    let mut a = Hist::new();
    assert_eq!(a.quantile(1), 0);
    let mut b = Hist::new();
    for v in [3, 1000] {
        a.add(v);
    }
    b.add(5);
    a.merge(&b);
    assert_eq!(a.count(), 3);
    assert_eq!((a.quantile(1), a.quantile(2), a.quantile(3)), (3, 5, 960));
    assert_eq!(a.quantile(4), Hist::lower(511));
}

#[test]
fn waves_are_sized_from_the_machine() {
    assert_eq!((max_conns(0), max_conns(280), max_conns(1024)), (8, 8, 256));
    assert_eq!((margin(60 * SEC), margin(3600 * SEC)), (10 * SEC, 30 * SEC));
    assert!(goes_on(20 * SEC + 1, 60 * SEC) && !goes_on(20 * SEC, 60 * SEC));
    let p = plan(0, 4, 256, 50 * SEC, 60 * SEC);
    assert_eq!(p, Plan { mix: 1, routes: 32, conns: 128, hold: 10 * SEC });
    let p = plan(3, 4, 256, 3600 * SEC, 3600 * SEC);
    assert_eq!(p, Plan { mix: 4, routes: 128, conns: 256, hold: 120 * SEC });
    let p = plan(1, 0, 256, 0, 60 * SEC);
    assert_eq!(p, Plan { mix: 2, routes: 4, conns: 0, hold: 3 * SEC });
    assert_eq!(plan(7, 1000, 8, 0, 0).routes, 2000);
    assert_eq!(ramp_wait(30 * SEC, 100), 125 * SEC);
    match capacity(4, "somewhere", 1024) {
        Outcome::Pass(m) => assert_eq!(
            m,
            "4 CPUs (somewhere); open-file limit 1024, so at most 256 connections at once"
        ),
        _ => panic!("it is a fact"),
    }
}

fn env() -> Env {
    Env::read(Vars {
        suite: Some("long".into()),
        run_id: Some("r".into()),
        namespace: None,
        api: None,
        node: None,
        router: None,
        stormd: None,
        timeout: None,
        route_wait: None,
        settle: None,
        account_namespace: None,
        account_token: None,
        ca: None,
    })
}

fn ok(status: u16, body: &str) -> Reply {
    Reply::Answer(Resp { status, head: String::new(), body: body.as_bytes().to_vec(), crlf: true })
}

#[test]
fn routes_take_turns_on_two_backends() {
    assert_eq!(route_name(2, 31), "w2-31");
    let want = wanted(&env(), 2, 3, "a", "b");
    assert_eq!(want.len(), 3);
    assert_eq!(want[1], ("w2-1.r.long.stormlb-test.invalid".to_string(), "b".to_string()));
    assert_eq!(want[2].1, "a");
    let mut i = 5;
    for _ in 0..100 {
        i = next_host(i, 7);
        assert!(i < 7);
    }
    assert_eq!(next_host(0, 7), 1);
    assert_eq!(next_host(1, 7), (2654435762usize) % 7);
}

#[test]
fn hosts_are_waited_for() {
    assert!(is_so(&ok(200, "backend=a"), "a", true) && !is_so(&ok(200, "backend=a"), "b", true));
    assert!(is_so(&ok(404, "no route for host x"), "a", false) && !is_so(&ok(200, "backend=a"), "a", false));
    assert!(!is_so(&Reply::Closed, "a", true) && !is_so(&Reply::Closed, "a", false));
    let round = vec![
        ("h1".to_string(), "a".to_string(), false),
        ("h2".to_string(), "b".to_string(), true),
        ("h3".to_string(), "a".to_string(), false),
    ];
    let left = still_pending(&round);
    assert_eq!(left.iter().map(|x| x.0.as_str()).collect::<Vec<_>>(), ["h1", "h3"]);
    assert!(all_over(0, 0, SEC) && all_over(2, SEC, SEC) && !all_over(2, 0, SEC));
}

#[test]
fn the_idle_latency_is_the_median() {
    assert_eq!(idle_p50(vec![9, 1, 5]), Some(5));
    assert_eq!(idle_p50(vec![4, 3, 2, 1]), Some(3));
    assert_eq!(idle_p50(vec![]), None);
}

fn done(load: Load) -> Done {
    let s = Supervised { running: true, restarts: 1, crashes: 0 };
    let total = load.hist.count();
    Done {
        creates: vec![],
        unserved: vec![],
        ramp: 1500 * MS,
        wait: 120 * SEC,
        load,
        p50_rank: rank(total, 0.50),
        p99_rank: rank(total, 0.99),
        deletes: vec![],
        routed: vec![],
        drain: 700 * MS,
        leftovers: Ok(0),
        supervised: Some((s, Ok(s))),
        idle: Some(90),
    }
}

#[test]
fn a_clean_wave_passes() {
    let mut load = Load::new();
    for us in 1..=100 {
        load.saw("h", "a", &ok(200, "backend=a"), us);
    }
    let p = Plan { mix: 2, routes: 8, conns: 4, hold: 10 * SEC };
    let w = wave(3, &p, &done(load));
    assert_eq!(
        w.json(),
        "\"wave\": 3, \"mix\": 2, \"routes\": 8, \"conns\": 4, \"route_ms\": 1500, \"requests\": 100, \
         \"errors\": 0, \"p50_us\": 48, \"p99_us\": 96, \"rps\": 10, \"drain_ms\": 700, \"leftovers\": 0, \
         \"restarts\": 0, \"idle_p50_us\": 90"
    );
    match w.outcome(p.hold) {
        Outcome::Pass(m) => {
            assert_eq!(m, "8 routes, 4 connections for 10 s: 100 requests, p99 96 us")
        }
        _ => panic!("nothing was wrong"),
    }
}

#[test]
fn a_wave_lists_its_problems_in_order() {
    let mut load = Load::new();
    load.saw("h1", "a", &ok(500, " broken\n"), 10);
    let mut other = Load::new();
    other.saw("h2", "a", &Reply::Closed, 10);
    other.saw("h2", "a", &ok(200, "backend=a"), 10);
    load.merge(other);
    assert_eq!((load.errors, load.hist.count()), (2, 1));
    let mut d = done(load);
    d.creates = vec!["c".into()];
    d.unserved = vec!["u1".into(), "u2".into()];
    d.deletes = vec!["d".into()];
    d.routed = vec!["r1".into()];
    d.leftovers = Ok(3);
    let before = Supervised { running: true, restarts: 1, crashes: 0 };
    d.supervised = Some((before, Ok(Supervised { running: true, restarts: 2, crashes: 1 })));
    d.idle = None;
    let p = Plan { mix: 1, routes: 8, conns: 4, hold: 0 };
    let w = wave(0, &p, &d);
    assert_eq!((w.restarts, w.leftovers, w.rps), (Some(2), 3, 1000));
    assert_eq!(
        w.problem.as_deref(),
        Some(
            "create: c; 2 of 8 hosts never served right in 120 s (e.g. u1); \
             2 wrong or failed requests; first: h1: 500 \"broken\"; delete: d; \
             1 hosts still routed 120 s after their routes were deleted (e.g. r1); \
             3 objects of this run still listed after the drain; \
             stormd: Supervised { running: true, restarts: 1, crashes: 0 } before the first wave, \
             Supervised { running: true, restarts: 2, crashes: 1 } now; \
             the router's /healthz did not answer after the drain"
        )
    );
    assert!(w.json().ends_with("\"restarts\": 2, \"idle_p50_us\": null"));
    d.leftovers = Err("x".into());
    d.supervised = Some((before, Err("gone".into())));
    let w = wave(0, &p, &d);
    assert!(w.problem.unwrap().contains("cannot list leftovers: x; gone; the router's"));
    assert_eq!((w.restarts, w.leftovers), (None, 0));
}
