use stormlb::net::Ipv4Addr;
use stormlb::vrrp::{
    encode_advertisement, ones_complement_checksum, parse_advertisement, Action, State,
    VirtualRouter,
};

#[test]
fn address_owner_starts_master() {
    let mut vr = VirtualRouter::new(51, 255, 1);
    assert_eq!(vr.start(), State::Master);
}

#[test]
fn backup_takes_over_on_timeout() {
    let mut vr = VirtualRouter::new(51, 100, 1);
    assert_eq!(vr.start(), State::Backup);
    assert!(vr.on_master_down_timeout());
    assert_eq!(vr.state, State::Master);
    // Idempotent once Master.
    assert!(!vr.on_master_down_timeout());
}

#[test]
fn higher_priority_peer_preempts_master() {
    let mut vr = VirtualRouter::new(51, 100, 1);
    vr.start();
    vr.on_master_down_timeout(); // now Master
    let a = Ipv4Addr::new(192, 168, 8, 10);
    let b = Ipv4Addr::new(192, 168, 8, 20);
    // Lower-priority peer does not preempt.
    assert!(!vr.on_advertisement(50, b, a));
    assert_eq!(vr.state, State::Master);
    // Higher-priority peer preempts -> we release the VIP.
    assert!(vr.on_advertisement(200, b, a));
    assert_eq!(vr.state, State::Backup);
}

#[test]
fn equal_priority_tie_breaks_on_address() {
    let mut vr = VirtualRouter::new(51, 100, 1);
    vr.start();
    vr.on_master_down_timeout();
    let ours = Ipv4Addr::new(192, 168, 8, 10);
    let higher_peer = Ipv4Addr::new(192, 168, 8, 20);
    assert!(vr.on_advertisement(100, higher_peer, ours)); // peer IP higher -> preempted
}

#[test]
fn master_down_interval_matches_rfc() {
    // advert=100cs, priority=100: skew=((256-100)*100)/256 = 60; 3*100+60=360
    let vr = VirtualRouter::new(51, 100, 1);
    assert_eq!(vr.master_down_interval_centis(), 360);
}

#[test]
fn advertisement_encodes_with_valid_checksum() {
    let vips = [Ipv4Addr::new(192, 168, 8, 50)];
    let pkt = encode_advertisement(51, 200, 100, &vips);
    assert_eq!(pkt[0], 0x31); // v3, advertisement
    assert_eq!(pkt[1], 51); // vrid
    assert_eq!(pkt[2], 200); // priority
    assert_eq!(pkt[3], 1); // one VIP
    assert_eq!(&pkt[8..12], &[192, 168, 8, 50]);
    // Checksum over the whole packet must now be zero.
    assert_eq!(ones_complement_checksum(&pkt), 0);
}

#[test]
fn a_lower_address_does_not_win_the_tie() {
    let mut vr = VirtualRouter::new(51, 100, 1);
    vr.start();
    vr.on_master_down_timeout();
    let ours = Ipv4Addr::new(192, 168, 8, 20);
    assert!(!vr.on_advertisement(100, Ipv4Addr::new(192, 168, 8, 10), ours));
    assert!(!vr.on_advertisement(100, ours, ours));
    assert_eq!(vr.state, State::Master);
}

#[test]
fn what_is_sent_is_what_a_peer_reads() {
    let vips = [Ipv4Addr::new(192, 168, 8, 50), Ipv4Addr::new(10, 0, 0, 1)];
    let pkt = encode_advertisement(51, 200, 100, &vips);
    let ad = parse_advertisement(&pkt).unwrap();
    assert_eq!((ad.vrid, ad.priority, ad.advert_interval_centis), (51, 200, 100));
    assert_eq!(ad.vips.len(), 2);
    assert_eq!(ad.vips[1].text(), "10.0.0.1");
    let mut bad = pkt;
    bad[2] = 201;
    assert!(parse_advertisement(&bad).is_none());
    assert!(parse_advertisement(b"").is_none());
}

#[test]
fn the_checksum_is_the_complement_of_the_sum() {
    assert_eq!(ones_complement_checksum(&[]), 0xffff);
    assert_eq!(ones_complement_checksum(&[0x12, 0x34]), 0xedcb);
    assert_eq!(ones_complement_checksum(&[0xff, 0xff, 0x00, 0x01]), 0xfffe);
    assert_eq!(ones_complement_checksum(&[0x12]), 0xedff);
}

#[test]
fn a_backup_claims_and_yields() {
    let ours = Ipv4Addr::new(192, 168, 8, 10);
    let peer = Ipv4Addr::new(192, 168, 8, 20);
    let mut vr = VirtualRouter::new(51, 100, 1);
    assert!(matches!(vr.on_start(), Action::Wait));
    assert!(matches!(vr.on_timer(359), Action::Wait));
    assert!(matches!(vr.on_timer(360), Action::Claim));
    assert!(matches!(vr.on_timer(99), Action::Wait));
    assert!(matches!(vr.on_timer(100), Action::Advertise));
    let vips = [Ipv4Addr::new(192, 168, 8, 50)];
    // Another virtual router's advertisement is none of ours.
    assert!(matches!(vr.on_packet(&encode_advertisement(52, 200, 100, &vips), peer, ours), Action::Wait));
    assert!(matches!(vr.on_packet(&encode_advertisement(51, 200, 100, &vips), peer, ours), Action::Release));
    assert_eq!(vr.state, State::Backup);
    assert!(matches!(vr.on_packet(&encode_advertisement(51, 50, 100, &vips), peer, ours), Action::Restart));
    assert!(matches!(vr.on_packet(b"junk", peer, ours), Action::Wait));
    let mut owner = VirtualRouter::new(51, 255, 1);
    assert!(matches!(owner.on_start(), Action::Claim));
}

#[test]
fn addresses_are_read_and_written() {
    let a = Ipv4Addr::parse("192.168.8.50").unwrap();
    assert_eq!(a.octets(), [192, 168, 8, 50]);
    assert_eq!(a.text(), "192.168.8.50");
    assert!(a.above(&Ipv4Addr::new(192, 168, 8, 49)));
    assert!(!a.above(&a));
    for s in ["", "1.2.3", "1.2.3.4.5", "256.0.0.1", "1.2.3.x", "1..2.3"] {
        assert!(Ipv4Addr::parse(s).is_none(), "{s}");
    }
}

#[test]
fn a_higher_priority_takes_over_first() {
    let down = |p: u8| VirtualRouter::new(51, p, 1).master_down_interval_centis();
    assert_eq!((down(1), down(100), down(254), down(255)), (399, 360, 300, 300));
    // The interval is at least a second, and at most what its field holds.
    assert_eq!(VirtualRouter::new(51, 100, 0).advert_interval_centis, 100);
    assert_eq!(VirtualRouter::new(51, 100, 1_000_000).advert_interval_centis, u16::MAX);
}

#[test]
fn of_two_masters_one_stays() {
    let a = Ipv4Addr::new(10, 0, 0, 1);
    let b = Ipv4Addr::new(10, 0, 1, 0);
    let c = Ipv4Addr::new(10, 0, 2, 0);
    let yields = |mine: u8, at: Ipv4Addr, peer: u8, from: Ipv4Addr| {
        let mut vr = VirtualRouter::new(51, mine, 1);
        vr.start();
        vr.on_master_down_timeout();
        vr.on_advertisement(peer, from, at)
    };
    assert!(yields(100, a, 100, b) && !yields(100, b, 100, a));
    assert!(yields(99, c, 100, a) && !yields(100, a, 99, c));
    assert!(yields(100, b, 100, c) && yields(100, a, 100, c));
}
