use stormlb::json::{parse, Json};
use stormlb::router::{
    answer, backend_of, bind_addrs, cluster_ip, default_apiserver, default_listen, default_poll,
    find_head_end, host_of, listen_on, missing_backend, on_read, request_path, resolve_service,
    route_label, routes_url, service_url, Answer, BackendRef, HeadStep, RouteList, RouteTable,
    RouterCfg, Routes, HEAD_LIMIT,
};

fn table(pairs: &[(&str, &str)]) -> RouteTable {
    let mut t = RouteTable::new();
    for (h, b) in pairs {
        t.insert(h.to_string(), b.to_string());
    }
    t
}

fn said(head: &str, t: &RouteTable) -> String {
    match answer(head.as_bytes(), t) {
        Answer::Respond(b) => String::from_utf8(b).unwrap(),
        Answer::Forward(to) => panic!("forwarded to {to}"),
    }
}

fn sent_to(head: &str, t: &RouteTable) -> String {
    match answer(head.as_bytes(), t) {
        Answer::Forward(to) => to,
        Answer::Respond(b) => panic!("answered {:?}", String::from_utf8(b)),
    }
}

#[test]
fn the_host_header_is_found_case_insensitively_and_port_stripped() {
    let head = b"GET / HTTP/1.1\r\nUser-Agent: x\r\nHOST: Console.Storm1.G8.lo:80\r\n\r\n";
    assert_eq!(host_of(head).as_deref(), Some("console.storm1.g8.lo"));
}

#[test]
fn a_missing_host_is_none_not_a_panic() {
    assert_eq!(host_of(b"GET / HTTP/1.1\r\nAccept: */*\r\n\r\n"), None);
}

#[test]
fn the_healthz_path_is_read_from_the_request_line() {
    assert_eq!(request_path(b"GET /healthz HTTP/1.1\nHost: x\n\n").as_deref(), Some("/healthz"));
    assert_eq!(request_path(b"GET /healthz?v=1 HTTP/1.1\n\n").as_deref(), Some("/healthz"));
}

#[test]
fn the_head_end_is_the_blank_line() {
    assert_eq!(find_head_end(b"GET / HTTP/1.1\r\n\r\nbody"), Some(18));
    assert_eq!(find_head_end(b"GET / HTTP/1.1\r\n"), None);
}

#[test]
fn hosts_at_the_edges() {
    assert_eq!(host_of(b""), None);
    assert_eq!(host_of(b"GET / HTTP/1.1"), None);
    assert_eq!(host_of(b"GET / HTTP/1.1\r\nHost:\r\n\r\n").as_deref(), Some(""));
    assert_eq!(host_of(b"GET / HTTP/1.1\r\nHost: a\r\nHost: b\r\n\r\n").as_deref(), Some("a"));
    assert_eq!(host_of(b"GET / HTTP/1.1\r\nHost: [fd00::1]\r\n\r\n").as_deref(), Some("[fd00::1]"));
    assert_eq!(host_of(b"GET / HTTP/1.1\r\nHost: [FD00::1]:80\r\n\r\n").as_deref(), Some("[fd00::1]"));
    // A line that is not UTF-8 ends the search.
    assert_eq!(host_of(b"GET / HTTP/1.1\r\nX: \xff\r\nHost: a\r\n\r\n"), None);
    // A blank line ends it too.
    assert_eq!(host_of(b"GET / HTTP/1.1\r\n\r\nHost: a\r\n"), None);
}

#[test]
fn paths_at_the_edges() {
    assert_eq!(request_path(b""), None);
    assert_eq!(request_path(b"GET\r\n"), None);
    assert_eq!(request_path(b"GET /a?b?c HTTP/1.1\r\n").as_deref(), Some("/a"));
    assert_eq!(request_path(b"GET /\xff HTTP/1.1\r\n"), None);
}

#[test]
fn the_router_answers_for_itself() {
    let none = RouteTable::new();
    assert_eq!(
        said("GET / HTTP/1.0\r\n\r\n", &none),
        "HTTP/1.1 400 Bad Request\r\ncontent-length: 26\r\nconnection: close\r\n\r\nthis router needs a Host\n\n"
    );
    assert_eq!(
        said("GET /healthz HTTP/1.1\r\nHost: x\r\n\r\n", &none),
        "HTTP/1.1 200 OK\r\ncontent-type: text/plain\r\ncontent-length: 13\r\nconnection: close\r\n\r\nrouter alive\n"
    );
    assert_eq!(
        said("GET / HTTP/1.1\r\nHost: Who.Lo:8080\r\n\r\n", &none),
        "HTTP/1.1 404 Not Found\r\ncontent-type: text/plain\r\ncontent-length: 25\r\nconnection: close\r\n\r\nno route for host who.lo\n"
    );
}

#[test]
fn a_claimed_host_is_forwarded_even_for_healthz() {
    let t = table(&[("a.lo", "10.0.0.1:80")]);
    assert_eq!(sent_to("GET / HTTP/1.1\r\nHost: A.Lo:80\r\n\r\n", &t), "10.0.0.1:80");
    assert_eq!(sent_to("GET /healthz HTTP/1.1\r\nHost: a.lo\r\n\r\n", &t), "10.0.0.1:80");
    assert!(said("GET /healthz HTTP/1.1\r\nHost: b.lo\r\n\r\n", &t).contains("router alive"));
}

#[test]
fn a_head_is_read_in_pieces_and_cut_off_past_the_limit() {
    let mut head = Vec::new();
    assert!(matches!(on_read(&mut head, b"GET / HTTP/1.1\r\nHo"), HeadStep::More));
    assert!(matches!(on_read(&mut head, b"st: a\r\n\r\nbody"), HeadStep::Complete(27)));
    assert_eq!(head.len(), 31);
    let mut head = Vec::new();
    assert!(matches!(on_read(&mut head, b""), HeadStep::Closed));
    let mut head = Vec::new();
    assert!(matches!(on_read(&mut head, &vec![b'a'; HEAD_LIMIT]), HeadStep::More));
    assert!(matches!(on_read(&mut head, b"a"), HeadStep::TooLong));
    // A head that ends is complete, however long it is.
    let mut head = Vec::new();
    let mut long = vec![b'a'; HEAD_LIMIT];
    long.extend_from_slice(b"\r\n\r\n");
    assert!(matches!(on_read(&mut head, &long), HeadStep::Complete(16388)));
}

#[test]
fn auto_listens_on_the_node_and_on_loopback() {
    let v = listen_on("auto:80", Some("192.168.8.98"));
    assert_eq!(v.addrs, ["192.168.8.98:80", "127.0.0.1:80"]);
    assert!(!v.fallback);
    for ip in ["127.0.0.1", "169.254.169.254", "0.0.0.0"] {
        assert!(bind_addrs("auto:80", Some(ip)).is_none(), "{ip}");
    }
    let v = listen_on("auto:80", None);
    assert_eq!(v.addrs, ["0.0.0.0:80"]);
    assert!(v.fallback);
    let v = listen_on("10.0.0.1:8080", Some("192.168.8.98"));
    assert_eq!(v.addrs, ["10.0.0.1:8080"]);
    assert!(!v.fallback);
}

#[test]
fn the_router_section_has_defaults() {
    assert_eq!(default_listen(), "0.0.0.0:80");
    assert_eq!(default_apiserver(), "https://127.0.0.1:6443");
    assert_eq!(default_poll(), 5);
    let mut c = RouterCfg {
        listen: default_listen(),
        apiserver: default_apiserver(),
        poll_secs: 0,
        insecure: true,
    };
    assert_eq!(c.poll_interval(), 1);
    c.poll_secs = 7;
    assert_eq!(c.poll_interval(), 7);
}

const ROUTES: &str = r#"{"items": [
  {"metadata": {"name": "a", "namespace": "n1", "annotations": {"storm.io/backend": "10.0.0.1:80"}},
   "spec": {"hostnames": ["A.lo", "shared.lo"], "rules": []}},
  {"metadata": {"name": "b", "namespace": "n2"},
   "spec": {"hostnames": ["b.lo", "shared.lo"],
            "rules": [{"backendRefs": [{"name": "svc", "port": 8080}]}]}},
  {"metadata": {"name": "c"},
   "spec": {"hostnames": ["c.lo"], "rules": []}}
]}"#;

fn route(i: usize) -> Json {
    match parse(ROUTES.as_bytes()) {
        Some(Json::Object(m)) => {
            for (k, v) in m {
                if let ("items", Json::Array(mut a)) = (k.as_str(), v) {
                    return a.remove(i);
                }
            }
            panic!("no items")
        }
        _ => panic!("not an object"),
    }
}

#[test]
fn routes_name_their_backends() {
    assert!(matches!(backend_of(&route(0)), BackendRef::Ready(b) if b == "10.0.0.1:80"));
    match backend_of(&route(1)) {
        BackendRef::Service { namespace, name, port } => {
            assert_eq!((namespace.as_str(), name.as_str(), port), ("n2", "svc", 8080));
        }
        _ => panic!("a backendRef names a Service"),
    }
    assert!(matches!(backend_of(&route(2)), BackendRef::Missing));
    assert_eq!(route_label(&route(1)), "n2/b");
    assert_eq!(route_label(&route(2)), "default/c");
    assert_eq!(missing_backend(), "no storm.io/backend annotation and no backendRef");
}

#[test]
fn services_resolve_to_their_cluster_ip() {
    let svc = br#"{"spec": {"clusterIP": "10.96.0.7"}}"#;
    assert_eq!(resolve_service("n2", "svc", 8080, svc), Ok("10.96.0.7:8080".to_string()));
    for body in [&br#"{"spec": {"clusterIP": "None"}}"#[..], br#"{"spec": {"clusterIP": ""}}"#, b"{}"] {
        assert_eq!(
            resolve_service("n2", "svc", 8080, body),
            Err("service n2/svc has no clusterIP".to_string())
        );
    }
    assert_eq!(cluster_ip(&parse(svc).unwrap()).as_deref(), Some("10.96.0.7"));
    assert_eq!(resolve_service("n2", "svc", 8080, b"not json"), Err("error decoding response body".to_string()));
}

#[test]
fn the_table_is_built_from_the_routes_that_resolve() {
    let list = RouteList::read(ROUTES.as_bytes()).unwrap();
    assert_eq!(list.sources().len(), 3);
    let t = list.table(&vec![Some("10.0.0.1:80".into()), Some("10.96.0.7:8080".into()), None]);
    assert_eq!(t.len(), 3);
    assert_eq!(t.get("a.lo"), Some("10.0.0.1:80"));
    assert_eq!(t.get("b.lo"), Some("10.96.0.7:8080"));
    // The last route that claims a host has it.
    assert_eq!(t.get("shared.lo"), Some("10.96.0.7:8080"));
    assert_eq!(t.get("c.lo"), None);
    assert!(RouteList::read(b"no json").is_none());
}

#[test]
fn a_failed_poll_keeps_the_last_good_table() {
    let mut r = Routes::new();
    assert_eq!(r.refresh(Some(table(&[("a.lo", "x:1")]))), Some(1));
    assert_eq!(r.refresh(None), None);
    assert_eq!(r.table.get("a.lo"), Some("x:1"));
    assert_eq!(r.refresh(Some(table(&[("b.lo", "x:1")]))), None);
    assert_eq!(r.table.get("a.lo"), None);
    assert_eq!(r.refresh(Some(RouteTable::new())), Some(0));
}

#[test]
fn the_apiserver_is_asked_at_its_urls() {
    assert_eq!(
        routes_url("https://127.0.0.1:6443"),
        "https://127.0.0.1:6443/apis/gateway.networking.k8s.io/v1/httproutes"
    );
    assert_eq!(
        service_url("https://k", "ns", "svc"),
        "https://k/api/v1/namespaces/ns/services/svc"
    );
}
