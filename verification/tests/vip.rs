use std::sync::Mutex;

use stormlb::vip::{Command, IpCmd, VipController};

/// Records claim/release calls for tests.
#[derive(Default)]
pub struct MockVip {
    pub events: Mutex<Vec<String>>,
}

impl VipController for MockVip {
    fn claim(&self, vip: &str, iface: &str) -> Result<(), String> {
        self.events.lock().unwrap().push(format!("claim {vip} {iface}"));
        Ok(())
    }
    fn release(&self, vip: &str, iface: &str) -> Result<(), String> {
        self.events.lock().unwrap().push(format!("release {vip} {iface}"));
        Ok(())
    }
}

#[test]
fn mock_records_claim_and_release() {
    let m = MockVip::default();
    m.claim("192.168.8.50", "eth0").unwrap();
    m.release("192.168.8.50", "eth0").unwrap();
    let ev = m.events.lock().unwrap().clone();
    assert_eq!(ev, ["claim 192.168.8.50 eth0", "release 192.168.8.50 eth0"]);
}

fn line(c: Command) -> String {
    format!("{} {}", c.program, c.args.join(" "))
}

#[test]
fn the_vip_is_moved_with_iproute2() {
    let ip = IpCmd;
    assert_eq!(line(ip.claim_command("10.0.0.9", "eth0")), "ip addr add 10.0.0.9/32 dev eth0");
    assert_eq!(line(ip.release_command("10.0.0.9", "eth0")), "ip addr del 10.0.0.9/32 dev eth0");
    assert_eq!(line(ip.announce_command("10.0.0.9", "eth0")), "arping -c 3 -A -I eth0 10.0.0.9");
}

#[test]
fn claiming_and_releasing_are_idempotent() {
    let ip = IpCmd;
    assert_eq!(ip.claim_result(true, b""), Ok(()));
    assert_eq!(ip.claim_result(false, b"RTNETLINK answers: File exists\n"), Ok(()));
    assert_eq!(ip.release_result(false, b"RTNETLINK answers: Cannot assign requested address\n"), Ok(()));
    assert_eq!(ip.release_result(false, b"Device \"eth9\" does not exist.\n"), Ok(()));
    assert_eq!(
        ip.claim_result(false, b" Operation not permitted\n"),
        Err("command failed: Operation not permitted".to_string())
    );
    assert_eq!(
        ip.release_result(false, b"bad \xff byte"),
        Err("command failed: bad \u{fffd} byte".to_string())
    );
}
