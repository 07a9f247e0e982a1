use stormlb::suite::env::{fd_limit, join, Env, Vars};
use stormlb::suite::plan::{
    choose_suite, environment, no_listener, no_set_up, not_run, not_started, timed_out, LongCheck,
    MediumCheck, ShortCheck, Suite, Turn,
};
use stormlb::suite::report::{Outcome, Report};

const SEC: u128 = 1_000_000_000;

fn env(run_id: &str) -> Env {
    Env {
        suite: "short".into(),
        run_id: run_id.into(),
        namespace: "ns".into(),
        api: "http://127.0.0.1:1".into(),
        node: "127.0.0.1".into(),
        router: "127.0.0.1:80".into(),
        stormd: None,
        token: None,
        ca: None,
        timeout: SEC,
        route_wait: SEC,
        settle: SEC,
    }
}

fn vars() -> Vars {
    Vars {
        suite: None,
        run_id: None,
        namespace: None,
        api: None,
        node: None,
        router: None,
        stormd: None,
        timeout: None,
        route_wait: None,
        settle: None,
        account_namespace: None,
        account_token: None,
        ca: None,
    }
}

#[test]
fn hostnames_are_dns_safe_and_per_run() {
    assert_eq!(env("Run_42/x").host("a"), "a.run-42-x.short.stormlb-test.invalid");
    assert_eq!(env("--").slug(), "run");
    assert!(env(&"x".repeat(90)).slug().len() <= 40);
}

#[test]
fn ipv6_nodes_are_bracketed() {
    assert_eq!(join("fd00::1", 80), "[fd00::1]:80");
    assert_eq!(join("10.0.0.1", 180), "10.0.0.1:180");
}

#[test]
fn runs_and_suites_have_hostnames_of_their_own() {
    assert_ne!(env("r1").host("a"), env("r2").host("a"));
    assert_ne!(env("r1").host("a"), env("r1").host("b"));
    let mut e = env("r1");
    e.suite = "long".into();
    assert_ne!(e.host("a"), env("r1").host("a"));
}

#[test]
fn slugs_at_the_edges() {
    assert_eq!(env("").slug(), "run");
    assert_eq!(env("-a-").slug(), "a");
    assert_eq!(env("É1").slug(), "1");
    // The cut falls on a dash, which goes too.
    assert_eq!(env(&format!("{}-tail", "x".repeat(39))).slug(), "x".repeat(39));
    assert_eq!(join("[fd00::1]", 80), "[fd00::1]:80");
}

#[test]
fn an_empty_environment_has_defaults() {
    let e = Env::read(vars());
    assert_eq!((e.suite.as_str(), e.node.as_str(), e.router.as_str()), ("short", "", ":80"));
    assert_eq!(e.stormd.as_deref(), Some(":180"));
    assert_eq!((e.timeout, e.route_wait, e.settle), (120 * SEC, 30 * SEC, 12 * SEC));
    assert_eq!(e.missing(), ["STORM_NODE", "STORM_API", "STORM_RUN_ID", "STORM_NAMESPACE"]);
    match environment(&e) {
        Some(Outcome::Infra(m)) => assert_eq!(
            m,
            "the runner did not set STORM_NODE, STORM_API, STORM_RUN_ID, STORM_NAMESPACE"
        ),
        _ => panic!("nothing is set"),
    }
}

#[test]
fn what_the_runner_sets_is_read() {
    let e = Env::read(Vars {
        suite: Some("long".into()),
        run_id: Some("r1".into()),
        namespace: Some("".into()),
        api: Some("https://k".into()),
        node: Some("fd00::1".into()),
        stormd: Some("none".into()),
        timeout: Some("60".into()),
        route_wait: Some("x".into()),
        account_namespace: Some(" tests\n".into()),
        account_token: Some("\n".into()),
        ..vars()
    });
    assert_eq!(e.router, "[fd00::1]:80");
    assert_eq!(e.stormd, None);
    assert_eq!(e.namespace, "tests");
    assert_eq!(e.token, None);
    assert_eq!((e.timeout, e.route_wait), (60 * SEC, 30 * SEC));
    assert!(e.missing().is_empty());
    assert!(environment(&e).is_none());
    assert_eq!(Env::read(Vars { suite: Some("medium".into()), ..vars() }).timeout, 1800 * SEC);
    assert_eq!(Env::read(Vars { suite: Some("long".into()), ..vars() }).timeout, 28800 * SEC);
    // A router of its own needs no node.
    let e = Env::read(Vars { router: Some("10.0.0.1:80".into()), ..vars() });
    assert_eq!(e.missing(), ["STORM_API", "STORM_RUN_ID", "STORM_NAMESPACE"]);
}

#[test]
fn time_runs_out() {
    let e = env("r");
    assert_eq!(e.remaining(0), SEC);
    assert_eq!(e.remaining(SEC / 4), 3 * SEC / 4);
    assert_eq!(e.remaining(2 * SEC), 0);
}

#[test]
fn the_open_file_limit_is_the_soft_one() {
    let l = "Limit                     Soft Limit           Hard Limit           Units     \n\
             Max processes             127                  127                  processes \n\
             Max open files            1024                 524288               files     \n";
    assert_eq!(fd_limit(l), Some(1024));
    assert_eq!(fd_limit("Max open files            unlimited            unlimited            files\n"), None);
    assert_eq!(fd_limit(""), None);
}

#[test]
fn a_suite_is_chosen_by_its_name() {
    assert!(matches!(choose_suite("short"), Ok(Suite::Short)));
    assert!(matches!(choose_suite("medium"), Ok(Suite::Medium)));
    assert!(matches!(choose_suite("long"), Ok(Suite::Long)));
    match choose_suite("a\"b") {
        Err(Outcome::Infra(m)) => {
            assert_eq!(m, "STORM_SUITE \"a\\\"b\" is not short, medium or long")
        }
        _ => panic!("there is no such suite"),
    }
}

#[test]
fn a_node_without_stormlb_is_skipped() {
    let mut e = env("r");
    assert_eq!(not_started(&e, false, false), None);
    e.stormd = Some("10.0.0.1:180".into());
    assert_eq!(not_started(&e, true, false), None);
    assert_eq!(not_started(&e, false, true), None);
    assert_eq!(
        not_started(&e, false, false).as_deref(),
        Some(
            "neither the router (127.0.0.1:80) nor its stormd (10.0.0.1:180) answers: stormlb is \
             not started on this node (stormcos starts it on the sno profile)"
        )
    );
}

#[test]
fn outcomes_have_their_words() {
    let o = timed_out(90 * SEC);
    assert_eq!(o.status(), "fail");
    assert!(matches!(o, Outcome::Fail(m) if m == "the suite did not finish within STORM_TIMEOUT (90 s)"));
    assert!(matches!(not_run("many-hosts"), Outcome::Fail(m) if m == "not run: many-hosts did not pass"));
    assert_eq!(Outcome::Pass("x".into()).status(), "pass");
    assert_eq!(Outcome::Skip("x".into()).status(), "skip");
    assert_eq!(Outcome::Infra("x".into()).status(), "infra");
    assert!(Outcome::Pass("x".into()).passed());
    assert!(!Outcome::Skip("x".into()).passed());
}

fn medium(made: bool, programmed: bool, many: bool) -> (Vec<&'static str>, Vec<&'static str>) {
    let (mut all, mut left) = (Vec::new(), Vec::new());
    let mut turn = Turn::Run(MediumCheck::NoHost);
    loop {
        let c = match turn {
            Turn::End => return (all, left),
            Turn::Run(c) => c,
            Turn::Leave(c) => {
                assert!(matches!(c.left(), Some(Outcome::Fail(_))));
                left.push(c.name());
                c
            }
        };
        all.push(c.name());
        turn = c.after(made, programmed, many);
    }
}

#[test]
fn every_check_is_reported_whatever_passes() {
    let (all, left) = medium(true, true, true);
    assert_eq!(all.len(), 22);
    assert!(left.is_empty());
    assert_eq!((all[0], all[4], all[21]), ("no-host-400", "routes-programmed", "cleanup"));
    let (same, left) = medium(true, false, false);
    assert_eq!(same, all);
    assert_eq!(
        left,
        [
            "healthz-claimed-proxied",
            "host-case-and-port",
            "per-connection-sticky",
            "streaming-unbuffered",
            "upgrade-passthrough",
            "large-body",
            "head-limit",
            "route-update",
            "concurrent-connections",
        ]
    );
    assert!(matches!(
        MediumCheck::Concurrent.left(),
        Some(Outcome::Fail(m)) if m == "not run: many-hosts did not pass"
    ));
    assert!(MediumCheck::Cleanup.left().is_none());
}

#[test]
fn a_route_that_never_came_is_not_seen_to_go() {
    assert_eq!(ShortCheck::RouteByHost.after(true, true), Turn::Run(ShortCheck::RouteRemoved));
    assert_eq!(ShortCheck::RouteByHost.after(true, false), Turn::Leave(ShortCheck::RouteRemoved));
    assert_eq!(ShortCheck::RouterHealthz.after(false, false), Turn::Run(ShortCheck::StormdSupervises));
    assert_eq!(ShortCheck::Cleanup.after(true, true), Turn::End);
    assert_eq!(ShortCheck::RouteRemoved.name(), "route-removed");
}

#[test]
fn a_failed_set_up_is_the_last_line() {
    assert!(matches!(no_set_up("no API"), Outcome::Infra(m) if m == "no API"));
    assert_eq!(no_listener("in use"), "backend listener: in use");
    assert!(ShortCheck::RouteByHost.sets_up() && !ShortCheck::RouteRemoved.sets_up());
    assert!(MediumCheck::RoutesProgrammed.sets_up() && !MediumCheck::NoHost.sets_up());
    assert_eq!(ShortCheck::RouteByHost.after(false, false), Turn::End);
    let (all, left) = medium(false, false, false);
    assert_eq!(all.last(), Some(&"routes-programmed"));
    assert_eq!((all.len(), left.len()), (5, 0));
    assert_eq!(LongCheck::Capacity.after(false, true), Turn::End);
    assert_eq!(LongCheck::Capacity.after(false, false), Turn::End);
}

#[test]
fn the_long_suite_reports_in_order() {
    let mut names = Vec::new();
    let mut turn = Turn::Run(LongCheck::Capacity);
    let mut waves = 0;
    while let Turn::Run(c) = turn {
        names.push(c.name());
        if matches!(c, LongCheck::Wave(_)) {
            waves += 1;
        }
        turn = c.after(true, waves < 3);
    }
    assert_eq!(turn, Turn::End);
    assert_eq!(names, ["capacity", "wave-0", "wave-1", "wave-2", "trend", "cleanup"]);
    assert_eq!(LongCheck::Capacity.after(true, false), Turn::Run(LongCheck::Trend));
}

#[test]
fn a_report_keeps_every_outcome() {
    let mut r = Report::new();
    assert_eq!(r.finish(), 0);
    let (line, passed) = r.record("a", &Outcome::Pass("it \"is\"".into()), 7, None);
    assert_eq!(line, r#"{"test": "a", "status": "pass", "ms": 7, "detail": "it \"is\""}"#);
    assert!(passed);
    let (line, _) = r.record("b", &Outcome::Skip("\\ \u{8}\t\n\u{c}\r\u{0}\u{1f}\u{7f} \u{e9}/".into()), 0, None);
    assert_eq!(
        line,
        "{\"test\": \"b\", \"status\": \"skip\", \"ms\": 0, \"detail\": \"\\\\ \\b\\t\\n\\f\\r\\u0000\\u001f\u{7f} \u{e9}/\"}"
    );
    assert_eq!(r.finish(), 0);
    let (line, passed) = r.record("c", &Outcome::Infra("x".into()), 0, Some("\"n\": 1"));
    assert_eq!(line, r#"{"test": "c", "status": "infra", "ms": 0, "detail": "x", "n": 1}"#);
    assert!(!passed);
    assert_eq!(r.finish(), 2);
    r.record("d", &Outcome::Fail("x".into()), 0, None);
    assert_eq!(r.finish(), 1);
    assert_eq!(r.outcomes.len(), 4);
}
