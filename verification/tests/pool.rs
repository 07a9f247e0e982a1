use stormlb::health::{record, state_name};
use stormlb::pool::Pool;

/// A member's address.
struct SocketAddr(String);

impl SocketAddr {
    fn port(&self) -> u16 {
        self.0.rsplit(':').next().unwrap().parse().unwrap()
    }
}

fn addr(p: u16) -> SocketAddr {
    SocketAddr(format!("127.0.0.1:{p}"))
}

#[test]
fn empty_pool_picks_nothing() {
    let mut pool = Pool::new(Vec::<SocketAddr>::new());
    assert!(pool.pick().is_none());
}

#[test]
fn skips_unhealthy_and_round_robins_healthy() {
    let mut pool = Pool::new(vec![addr(1), addr(2), addr(3)]);
    assert!(pool.pick().is_none(), "all start unhealthy");
    pool.backends[0].set_healthy(true);
    pool.backends[2].set_healthy(true);
    // Only backends 0 and 2 should ever be returned, alternating.
    let mut seen = std::collections::HashSet::new();
    for _ in 0..10 {
        let be = pool.pick().unwrap();
        seen.insert(be.addr.port());
    }
    assert_eq!(seen, [1u16, 3u16].into_iter().collect());
    assert_eq!(pool.healthy_count(), 2);
}

#[test]
fn all_unhealthy_returns_none() {
    let mut pool = Pool::new(vec![addr(1), addr(2)]);
    pool.backends[0].set_healthy(true);
    assert!(pool.pick().is_some());
    pool.backends[0].set_healthy(false);
    assert!(pool.pick().is_none());
}

#[test]
fn healthy_members_alternate() {
    let mut pool = Pool::new(vec![addr(1), addr(2), addr(3)]);
    assert!(pool.pick().is_none());
    pool.backends[0].set_healthy(true);
    pool.backends[2].set_healthy(true);
    let ports: Vec<u16> = (0..10).map(|_| pool.pick().unwrap().addr.port()).collect();
    assert_eq!(ports, [1, 3, 1, 3, 1, 3, 1, 3, 1, 3]);
    assert_eq!(pool.healthy_count(), 2);
    // One that comes up takes its place in the round.
    pool.backends[1].set_healthy(true);
    let ports: Vec<u16> = (0..6).map(|_| pool.pick().unwrap().addr.port()).collect();
    assert_eq!(ports, [1, 2, 3, 1, 2, 3]);
    // One that goes down is passed over.
    pool.backends[0].set_healthy(false);
    let ports: Vec<u16> = (0..4).map(|_| pool.pick().unwrap().addr.port()).collect();
    assert_eq!(ports, [2, 3, 2, 3]);
}

#[test]
fn a_pick_that_finds_none_keeps_the_turn() {
    let mut pool = Pool::new(vec![addr(1), addr(2), addr(3)]);
    for b in pool.backends.iter_mut() {
        b.set_healthy(true);
    }
    assert_eq!(pool.pick().unwrap().addr.port(), 1);
    for b in pool.backends.iter_mut() {
        b.set_healthy(false);
    }
    assert!(pool.pick().is_none());
    for b in pool.backends.iter_mut() {
        b.set_healthy(true);
    }
    assert_eq!(pool.pick().unwrap().addr.port(), 2);
    // A member is found wherever the search starts.
    pool.next = usize::MAX;
    assert!(pool.pick().is_some());
}

#[test]
fn a_check_is_news_when_it_changes_the_state() {
    let mut pool = Pool::new(vec![addr(1)]);
    assert!(!record(&mut pool.backends[0], false));
    assert!(record(&mut pool.backends[0], true));
    assert!(!record(&mut pool.backends[0], true));
    assert!(pool.backends[0].is_healthy());
    assert_eq!((state_name(true), state_name(false)), ("healthy", "unhealthy"));
}
