use stormlb::json::{as_number, as_text, first, get, parse, Json};
use stormlb::router::{backend_of, cluster_ip, BackendRef, RouteList};
use stormlb::suite::api::{
    accepted, allocatable, annotations, can_annotate, count, cpus, deleted, found, message, node_cpus,
    object_path, object_paths, read_body, refusal, with_annotations, Api, Found,
};
use stormlb::suite::env::{Env, Vars};
use stormlb::suite::medium::{endpoints, headless_service, service, ServiceWatch};

/// The whole part of a decimal fraction.
fn whole(q: &str) -> Option<u64> {
    q.parse::<f64>().ok().map(|x| x as u64)
}

#[test]
fn cpu_quantities() {
    assert_eq!(cpus("8", whole("8")), Some(8));
    assert_eq!(cpus("7500m", whole("7500m")), Some(7));
    assert_eq!(cpus("250m", whole("250m")), Some(1));
    assert_eq!(cpus("x", whole("x")), None);
}

#[test]
fn cpu_quantities_at_the_edges() {
    assert_eq!(cpus("1.5", whole("1.5")), Some(1));
    assert_eq!(cpus("0.5", whole("0.5")), Some(1));
    assert_eq!(cpus("m", whole("m")), None);
    assert_eq!(cpus("-5m", whole("-5m")), None);
    assert_eq!(cpus("", whole("")), None);
}

fn api() -> Api {
    Api::new(&Env::read(Vars {
        suite: None,
        run_id: Some("run 1".into()),
        namespace: Some("ns".into()),
        api: Some("https://k:6443//".into()),
        node: Some("n".into()),
        router: None,
        stormd: None,
        timeout: None,
        route_wait: None,
        settle: None,
        account_namespace: None,
        account_token: Some("word".into()),
        ca: None,
    }))
    .unwrap_or_else(|e| panic!("{e}"))
}

#[test]
fn the_apiserver_has_its_paths() {
    let a = api();
    assert_eq!(a.url("/x"), "https://k:6443/x");
    assert_eq!(a.token.as_deref(), Some("word"));
    assert_eq!(a.routes(), "/apis/gateway.networking.k8s.io/v1/namespaces/ns/httproutes");
    assert_eq!(a.collections()[1], "/api/v1/namespaces/ns/endpoints");
    assert_eq!(a.collections()[2], a.services());
    assert_eq!(a.mine("/c"), "/c?labelSelector=storm.io%2Ftest-run%3Drun 1");
    let mut e = Env::read(Vars {
        suite: None,
        run_id: None,
        namespace: None,
        api: None,
        node: None,
        router: None,
        stormd: None,
        timeout: None,
        route_wait: None,
        settle: None,
        account_namespace: None,
        account_token: None,
        ca: None,
    });
    assert!(matches!(Api::new(&e), Err(m) if m == "STORM_API is not set"));
    e.api = "/".into();
    assert!(matches!(Api::new(&e), Ok(a) if a.base.is_empty()));
}

fn text_at<'a>(j: &'a Json, path: &[&str]) -> Option<&'a str> {
    let mut at = Some(j);
    for k in path {
        at = get(at, k);
    }
    as_text(at)
}

#[test]
fn routes_carry_the_run_and_their_backend() {
    let a = api();
    let r = a.route("m1", &["h.lo".to_string()], Some("10.0.0.1:80"), None);
    assert_eq!(text_at(&r, &["kind"]), Some("HTTPRoute"));
    assert_eq!(text_at(&r, &["metadata", "name"]), Some("m1"));
    assert_eq!(text_at(&r, &["metadata", "labels", "storm.io/test-run"]), Some("run 1"));
    assert_eq!(text_at(&r, &["metadata", "annotations", "storm.io/backend"]), Some("10.0.0.1:80"));
    assert_eq!(as_text(first(get(get(Some(&r), "spec"), "hostnames"))), Some("h.lo"));
    let r = a.route("m2", &[], None, Some(("svc", 81)));
    assert_eq!(text_at(&r, &["metadata", "annotations", "storm.io/backend"]), None);
    let target = first(get(first(get(get(Some(&r), "spec"), "rules")), "backendRefs"));
    assert_eq!((as_text(get(target, "name")), as_number(get(target, "port"))), (Some("svc"), Some(81)));
    assert_eq!(text_at(&annotations("b:1"), &["storm.io/backend"]), Some("b:1"));
}

#[test]
fn services_and_endpoints_are_made() {
    let a = api();
    let s = service(&a, "svc-c", 8080);
    assert_eq!(text_at(&s, &["kind"]), Some("Service"));
    let p = first(get(get(Some(&s), "spec"), "ports"));
    assert_eq!(as_number(get(p, "targetPort")), Some(8080));
    assert_eq!(cluster_ip(&s), None);
    let h = headless_service(&a, "svc-h", 80);
    assert_eq!(text_at(&h, &["spec", "clusterIP"]), Some("None"));
    assert_eq!(cluster_ip(&h), None);
    let e = endpoints(&a, "svc-c", "10.0.0.7", 8080);
    let subset = first(get(Some(&e), "subsets"));
    assert_eq!(as_text(get(first(get(subset, "addresses")), "ip")), Some("10.0.0.7"));
    assert_eq!(cluster_ip(&parse(br#"{"spec": {"clusterIP": "10.96.0.7"}}"#).unwrap()).as_deref(), Some("10.96.0.7"));
}

#[test]
fn a_service_is_watched_until_it_has_an_address() {
    let mut w = ServiceWatch::new("svc-c");
    assert!(w.goes_on(9_999_999_999) && !w.goes_on(10_000_000_000));
    assert_eq!(w.failure(), "Service svc-c has no clusterIP after 10 s: spec null");
    assert_eq!(w.saw(Some(r#"{"spec": {"b": [1, -2, 0.50], "a": "x"}}"#)), None);
    assert_eq!(
        w.failure(),
        r#"Service svc-c has no clusterIP after 10 s: spec {"a":"x","b":[1,-2,0.5]}"#
    );
    // While there is none, what was seen stays.
    assert_eq!(w.saw(None), None);
    assert!(w.failure().ends_with(r#"spec {"a":"x","b":[1,-2,0.5]}"#));
    assert_eq!(w.saw(Some("not json")), None);
    assert!(w.failure().ends_with("spec null"));
    assert_eq!(w.saw(Some(r#"{"spec": {"clusterIP": "10.96.0.7"}}"#)).as_deref(), Some("10.96.0.7"));
}

/// A number as it is written.
fn written(j: Option<&Json>) -> Option<&str> {
    match j {
        Some(Json::Number(t, _)) => Some(t),
        _ => None,
    }
}

#[test]
fn an_updated_route_changes_its_backend_alone() {
    let text = r#"{
        "kind": "HTTPRoute",
        "metadata": {"name": "m", "annotations": {"storm.io/backend": "a:1", "x": "y"}, "generation": -1.5},
        "spec": {"hostnames": ["h.lo"]}
    }"#;
    let r = read_body(text).value;
    assert!(can_annotate(&r));
    let r = with_annotations(r, "b:2");
    assert_eq!(text_at(&r, &["metadata", "annotations", "storm.io/backend"]), Some("b:2"));
    assert_eq!(text_at(&r, &["metadata", "annotations", "x"]), None);
    assert_eq!((text_at(&r, &["metadata", "name"]), text_at(&r, &["kind"])), (Some("m"), Some("HTTPRoute")));
    assert_eq!(written(get(get(Some(&r), "metadata"), "generation")), Some("-1.5"));
    assert_eq!(as_text(first(get(get(Some(&r), "spec"), "hostnames"))), Some("h.lo"));
    assert!(matches!(backend_of(&r), BackendRef::Ready(b) if b == "b:2"));
    // What is not there is made.
    for text in ["null", "{}", r#"{"metadata": null}"#, r#"{"metadata": {"name": "m"}}"#] {
        let r = read_body(text).value;
        assert!(can_annotate(&r), "{text}");
        let r = with_annotations(r, "b:2");
        assert_eq!(text_at(&r, &["metadata", "annotations", "storm.io/backend"]), Some("b:2"));
    }
    for text in ["not json", "[]", "1", r#"{"metadata": "m"}"#] {
        assert!(!can_annotate(&read_body(text).value), "{text}");
    }
}

#[test]
fn answers_are_judged_by_their_status() {
    assert!(accepted(200) && accepted(299) && !accepted(199) && !accepted(300));
    assert!(matches!(found("/p", 404, "x"), Found::Missing));
    assert!(matches!(found("/p", 201, "x"), Found::There));
    assert!(matches!(found("/p", 500, "x"), Found::Refused(e) if e == "GET /p: 500 x"));
    assert_eq!(deleted("/p", 404, "x"), Ok(()));
    assert_eq!(deleted("/p", 200, "x"), Ok(()));
    assert_eq!(deleted("/p", 409, "x"), Err("DELETE /p: 409 x".to_string()));
}

#[test]
fn refusals_give_the_message_or_the_body() {
    let b = read_body(r#"{"message": "no such thing", "code": 1.50}"#);
    assert_eq!(message(&b), "no such thing");
    assert_eq!(b.shown, r#"{"code":1.5,"message":"no such thing"}"#);
    let b = read_body(r#"{ "a" : [1] }"#);
    assert_eq!(message(&b), r#"{"a":[1]}"#);
    let b = read_body("not \"json\"");
    assert!(matches!(&b.value, Json::Text(t) if t == "not \"json\""));
    assert_eq!(message(&b), "\"not \\\"json\\\"\"");
    assert_eq!(refusal("POST", "/p", 422, "why"), "POST /p: 422 why");
    assert_eq!(refusal("POST", "/p", 422, &"x".repeat(400)), format!("POST /p: 422 {}", "x".repeat(300)));
}

#[test]
fn lists_are_counted_and_named() {
    let l = parse(br#"{"items": [{"metadata": {"name": "a"}}, {}, {"metadata": {"name": "b"}}]}"#).unwrap();
    assert_eq!(count(&l), 3);
    assert_eq!(object_paths("/c", &l), ["/c/a", "/c/b"]);
    assert_eq!(object_path("/c", "x"), "/c/x");
    assert!(object_paths("/c", &Json::Null).is_empty());
    assert_eq!(count(&Json::Null), 0);
}

fn nodes() -> Json {
    parse(
        br#"{"items": [
        {"metadata": {"name": "n1"}, "status": {"allocatable": {"cpu": "8"}, "addresses": [{"address": "10.0.0.1"}]}},
        {"metadata": {"name": "n2"}, "status": {"allocatable": {"cpu": "x"}, "addresses": []}},
        {"metadata": {"name": "n3"}, "status": {}}]}"#,
    )
    .unwrap()
}

#[test]
fn the_node_is_found_by_name_or_address() {
    let l = nodes();
    let ask = |node: &str| {
        let q = allocatable(&l, node);
        node_cpus(&l, node, q.as_deref().and_then(whole))
    };
    assert_eq!(ask("n1"), Ok((8, "n1".to_string())));
    assert_eq!(ask("10.0.0.1"), Ok((8, "n1".to_string())));
    assert_eq!(ask("n2"), Err("node n2: allocatable cpu \"x\"".to_string()));
    assert_eq!(ask("n3"), Err("node n3 has no allocatable cpu".to_string()));
    assert_eq!(ask("n4"), Err("no node named or addressed \"n4\" among 3".to_string()));
    // The only node is the one, whatever it is called.
    let one = parse(br#"{"items": [{"status": {"allocatable": {"cpu": "2"}}}]}"#).unwrap();
    assert_eq!(node_cpus(&one, "n9", Some(2)), Ok((2, "?".to_string())));
}

#[test]
fn the_router_reads_the_routes_the_suites_make() {
    let a = api();
    let r = a.route("m1", &["H.lo".to_string()], Some("10.0.0.1:80"), None);
    assert!(matches!(backend_of(&r), BackendRef::Ready(b) if b == "10.0.0.1:80"));
    let s = a.route("m2", &["s.lo".to_string()], None, Some(("svc", 81)));
    assert!(matches!(
        backend_of(&s),
        BackendRef::Service { namespace, name, port: 81 } if namespace == "ns" && name == "svc"
    ));
    let list = RouteList::of(Json::Object(vec![("items".to_string(), Json::Array(vec![r, s]))]));
    let t = list.table(&vec![Some("10.0.0.1:80".into()), None]);
    assert_eq!((t.len(), t.get("h.lo"), t.get("s.lo")), (1, Some("10.0.0.1:80"), None));
}
