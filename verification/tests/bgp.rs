use stormlb::bgp::{
    encode_announce, encode_keepalive, encode_open, encode_withdraw, on_header, preflight, Inbound,
    PendingSpeaker, PreflightError, RouteChange, Session, Speaker, Speech,
};
use stormlb::config::{BgpCfg, BgpPeer};
use stormlb::net::Ipv4Addr;

fn cfg() -> BgpCfg {
    BgpCfg {
        enabled: true,
        local_asn: 65001,
        router_id: "10.0.0.1".into(),
        peers: vec![BgpPeer { address: "10.0.0.254".into(), asn: 65000 }],
    }
}

fn speech() -> Speech {
    Speech { asn: 65001, router_id: Ipv4Addr::new(10, 0, 0, 1) }
}

#[test]
fn a_preflight_refuses_what_cannot_be_spoken() {
    let s = preflight(&cfg()).unwrap_or_else(|_| panic!("the fixture is good"));
    assert_eq!((s.asn, s.router_id.text()), (65001, "10.0.0.1".to_string()));
    let mut c = cfg();
    c.local_asn = 65536;
    assert!(matches!(preflight(&c), Err(PreflightError::BadAsn)));
    let mut c = cfg();
    c.peers = vec![];
    assert!(matches!(preflight(&c), Err(PreflightError::NoPeers)));
    let mut c = cfg();
    c.router_id = "fd00::1".into();
    assert!(matches!(preflight(&c), Err(PreflightError::BadRouterId)));
    assert!(PreflightError::NoPeers.message().contains("no peers"));
    assert_eq!(cfg().peers[0].dial(), "10.0.0.254:179");
}

#[test]
fn messages_have_their_octets() {
    let mut open = vec![0xff; 16];
    open.extend_from_slice(&[0, 29, 1, 4, 0xfd, 0xe9, 0, 180, 10, 0, 0, 1, 0]);
    assert_eq!(encode_open(&speech()), open);
    let mut keep = vec![0xff; 16];
    keep.extend_from_slice(&[0, 19, 4]);
    assert_eq!(encode_keepalive(), keep);
    let vip = Ipv4Addr::new(192, 168, 8, 50);
    let mut up = vec![0xff; 16];
    up.extend_from_slice(&[0, 46, 2, 0, 0, 0, 18]);
    up.extend_from_slice(&[0x40, 1, 1, 0, 0x40, 2, 4, 2, 1, 0xfd, 0xe9, 0x40, 3, 4, 10, 0, 0, 1]);
    up.extend_from_slice(&[32, 192, 168, 8, 50]);
    assert_eq!(encode_announce(&speech(), vip), up);
    let mut down = vec![0xff; 16];
    down.extend_from_slice(&[0, 28, 2, 0, 5, 32, 192, 168, 8, 50, 0, 0]);
    assert_eq!(encode_withdraw(vip), down);
}

#[test]
fn headers_say_what_to_read() {
    assert_eq!(on_header(&encode_keepalive()), Inbound::Discard(0));
    let mut h = encode_keepalive();
    h[17] = 29;
    assert_eq!(on_header(&h), Inbound::Discard(10));
    h[18] = 3;
    assert_eq!(on_header(&h), Inbound::End);
    h[18] = 4;
    h[17] = 18;
    assert_eq!(on_header(&h), Inbound::End);
    assert_eq!(on_header(b"short"), Inbound::End);
}

#[test]
fn the_route_stands_while_a_backend_does() {
    let mut s = Session::new();
    assert_eq!(s.reconcile(0), None);
    assert_eq!(s.reconcile(2), Some(RouteChange::Announce));
    assert_eq!(s.reconcile(1), None);
    assert_eq!(s.reconcile(0), Some(RouteChange::Withdraw));
    assert_eq!(s.reconcile(0), None);
}

#[test]
fn a_pending_speaker_advertises_nothing() {
    let s = PendingSpeaker::from_config(&cfg());
    let e = "BGP anycast is not implemented yet (phase 2) \u{2014} use VRRP (L2) for now".to_string();
    assert_eq!(s.advertise("10.0.0.9"), Err(e.clone()));
    assert_eq!(s.withdraw("10.0.0.9"), Err(e));
    let s = PendingSpeaker { local_asn: 65001, peers: vec![] };
    assert!(s.advertise("192.168.8.50").is_err());
    assert!(s.withdraw("192.168.8.50").is_err());
}
