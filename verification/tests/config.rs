use stormlb::config::{
    default_bind, BackendCfg, BgpCfg, Config, HealthMode, HealthSpec, StartError, Startup, Vip,
    VrrpCfg,
};
use stormlb::health::{check, probe, Probe, Reply};
use stormlb::router::{default_apiserver, default_insecure, default_listen, default_poll, RouterCfg};

fn config(vip: Option<Vip>, backends: Vec<BackendCfg>) -> Config {
    Config {
        vip,
        backends,
        health: HealthSpec::default(),
        vrrp: VrrpCfg::default(),
        bgp: BgpCfg::default(),
        router: None,
    }
}

fn vip() -> Vip {
    Vip { address: "10.0.0.1".into(), port: 443, bind: default_bind() }
}

fn backend() -> BackendCfg {
    BackendCfg { address: "192.168.8.98".into(), port: 6443 }
}

#[test]
fn absent_sections_have_their_defaults() {
    let h = HealthSpec::default();
    assert_eq!(h.mode, HealthMode::Tcp);
    assert_eq!((h.path.as_str(), h.interval_secs, h.timeout_secs), ("/readyz", 2, 2));
    assert_eq!(h.expect_status, [200]);
    let v = VrrpCfg::default();
    assert!(!v.enabled);
    assert_eq!((v.vrid, v.priority, v.advert_interval_secs), (51, 100, 1));
    assert!(!BgpCfg::default().enabled);
    assert_eq!(default_bind(), "0.0.0.0");
}

#[test]
fn addresses_are_joined_with_their_ports() {
    assert_eq!(vip().listen(), "0.0.0.0:443");
    assert_eq!(backend().socket_addr().unwrap(), "192.168.8.98:6443");
}

fn socket_addr(address: &str) -> Result<String, String> {
    BackendCfg { address: address.into(), port: 80 }.socket_addr()
}

#[test]
fn backends_are_ip_literals() {
    assert_eq!(socket_addr("10.0.0.1").unwrap(), "10.0.0.1:80");
    for a in [
        "::", "::1", "1::", "fd00::1", "FD00::aBcD", "1:2:3:4:5:6:7:8", "1:2:3:4:5:6:7::",
        "::2:3:4:5:6:7:8", "1::8", "::1.2.3.4", "::ffff:1.2.3.4", "1:2:3:4:5:6:1.2.3.4",
        "1::6:1.2.3.4", "0001::0008",
    ] {
        assert_eq!(socket_addr(a).unwrap(), format!("[{a}]:80"));
    }
    for a in ["[fd00::1]", "[::]", "[fe80::1%2]", "[fe80::1%0004294967295]"] {
        assert_eq!(socket_addr(a).unwrap(), format!("{a}:80"));
    }
    for a in [
        "", "localhost", "api.storm.lo", "10.0.0", "10.0.0.1.2", "10.0.0.256", "10.0.0.01",
        "10.0.0.1 ", "10.0.0.1:80", ":", ":::", "1", "1:2:3:4:5:6:7", "1:2:3:4:5:6:7:8:9",
        "1:2:3:4:5:6:7:8::", "::1:2:3:4:5:6:7:8", "1::2::3", "12345::", "g::", "1.2.3.4::",
        "::1.2.3.4:5", "1:2:3:4:5:6:7:1.2.3.4", "::1.2.3.04", ":1", "1:", "::1:", "fe80::1%2",
        "[]", "[10.0.0.1]", "[::1", "::1]", "[[::1]]", "[fe80::1%]", "[fe80::1%+2]",
        "[fe80::1%eth0]", "[fe80::1%4294967296]", "[::1]:80",
    ] {
        assert_eq!(socket_addr(a), Err("invalid socket address syntax".to_string()), "{a}");
    }
}

#[test]
fn a_start_needs_something_to_do() {
    assert!(matches!(config(None, vec![]).startup(), Err(StartError::NothingToDo)));
    assert_eq!(StartError::NothingToDo.message(), "nothing to do");
    let mut v = vip();
    v.address = "fd00::1".into();
    assert!(matches!(config(Some(v), vec![]).startup(), Err(StartError::BadVip)));
    assert_eq!(StartError::BadVip.message(), "vip.address is not an IPv4 address");
    let router = RouterCfg {
        listen: default_listen(),
        apiserver: default_apiserver(),
        poll_secs: default_poll(),
        insecure: default_insecure(),
    };
    let mut c = config(None, vec![]);
    c.router = Some(router);
    assert!(matches!(c.startup(), Ok(Startup::RouterOnly)));
    c.vip = Some(vip());
    c.backends = vec![backend()];
    c.vrrp.enabled = true;
    match c.startup() {
        Ok(Startup::Balancer { vip, vrrp, bgp, router }) => {
            assert_eq!(vip.octets(), [10, 0, 0, 1]);
            assert_eq!((vrrp, bgp, router), (true, false, true));
        }
        _ => panic!("a vip is balanced"),
    }
}

#[test]
fn probes_follow_the_mode() {
    let mut h = HealthSpec::default();
    assert!(matches!(probe("10.0.0.1:80", &h, false), Probe::Connect));
    h.mode = HealthMode::Https;
    h.path = "readyz".into();
    assert!(matches!(probe("10.0.0.1:80", &h, true), Probe::Get(u) if u == "https://10.0.0.1:80/readyz"));
    h.mode = HealthMode::Http;
    h.path = "/readyz".into();
    assert!(matches!(probe("10.0.0.1:80", &h, true), Probe::Get(u) if u == "http://10.0.0.1:80/readyz"));
    assert!(matches!(probe("10.0.0.1:80", &h, false), Probe::Unable));
}

#[test]
fn replies_are_held_to_the_mode() {
    let mut h = HealthSpec::default();
    assert!(check(&h, Reply::Connected));
    assert!(!check(&h, Reply::Failed));
    assert!(!check(&h, Reply::Status(200)));
    h.mode = HealthMode::Http;
    h.expect_status = vec![200, 204];
    assert!(check(&h, Reply::Status(204)));
    assert!(!check(&h, Reply::Status(500)));
    assert!(!check(&h, Reply::Connected));
    h.timeout_secs = 0;
    h.interval_secs = 0;
    assert_eq!((h.timeout(), h.interval()), (1, 1));
}
