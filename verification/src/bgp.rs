//! BGP-anycast advertisement of the VIP (L3, active-active via ECMP).
//!
//! Unlike VRRP, where one node owns the VIP, every healthy node advertises
//! the same /32, and the upstream router hashes flows across them. A node
//! with no healthy backend withdraws its route.
//!
//! [`preflight`] says whether the configuration can be spoken for, the
//! `encode_*` functions make the messages, and [`Session`] decides what to
//! announce. The connections are the caller's.

use crate::config::{BgpCfg, BgpPeer};
use crate::net;
use crate::net::Ipv4Addr;
use crate::text;
use vstd::prelude::*;

verus! {

/// A BGP speaker that advertises the VIP /32 to configured peers and
/// withdraws it when this node's backends go unhealthy.
pub trait Speaker: Send + Sync {
    /// Advertise `vip/32` (start or refresh the anycast announcement).
    fn advertise(&self, vip: &str) -> Result<(), String>;

    /// Withdraw `vip/32` (stop attracting traffic to this node).
    fn withdraw(&self, vip: &str) -> Result<(), String>;
}

/// A speaker that is configured and speaks to nobody: advertising and
/// withdrawing do nothing and return an explicit error, so that nothing
/// silently believes anycast is active.
pub struct PendingSpeaker {
    pub local_asn: u32,
    pub peers: Vec<(String, u32)>,
}

impl PendingSpeaker {
    /// The speaker for this configuration, peer by peer.
    pub fn from_config(cfg: &BgpCfg) -> (r: Self)
        ensures
            r.local_asn == cfg.local_asn,
            r.peers@.len() == cfg.peers@.len(),
            forall|i: int|
                0 <= i < r.peers@.len() ==> (#[trigger] r.peers@[i]).0@ == cfg.peers@[i].address@
                    && r.peers@[i].1 == cfg.peers@[i].asn,
    {
        let mut peers: Vec<(String, u32)> = Vec::new();
        let mut i: usize = 0;
        while i < cfg.peers.len()
            invariant
                i <= cfg.peers@.len(),
                peers@.len() == i,
                forall|k: int|
                    0 <= k < i ==> (#[trigger] peers@[k]).0@ == cfg.peers@[k].address@
                        && peers@[k].1 == cfg.peers@[k].asn,
            decreases cfg.peers.len() - i,
        {
            peers.push((String::from_str(cfg.peers[i].address.as_str()), cfg.peers[i].asn));
            i += 1;
        }
        PendingSpeaker { local_asn: cfg.local_asn, peers }
    }
}

/// What a pending speaker answers.
pub open spec fn pending_text() -> Seq<char> {
    "BGP anycast is not implemented yet (phase 2) — use VRRP (L2) for now"@
}

fn pending() -> (r: String)
    ensures
        r@ == pending_text(),
{
    String::from_str("BGP anycast is not implemented yet (phase 2) — use VRRP (L2) for now")
}

impl Speaker for PendingSpeaker {
    fn advertise(&self, vip: &str) -> (r: Result<(), String>)
        ensures
            r matches Err(e) && e@ == pending_text(),
    {
        Err(pending())
    }

    fn withdraw(&self, vip: &str) -> (r: Result<(), String>)
        ensures
            r matches Err(e) && e@ == pending_text(),
    {
        Err(pending())
    }
}

// ---------------------------------------------------------------------------
// Preflight
// ---------------------------------------------------------------------------

/// What a session is spoken with.
pub struct Speech {
    pub asn: u16,
    /// This node's address: the BGP identifier, and the next hop.
    pub router_id: Ipv4Addr,
}

/// Why BGP is disabled.
#[derive(Debug, Clone, Copy, PartialEq, Eq, Structural)]
pub enum PreflightError {
    /// `local_asn` is not from 1 to 65535.
    BadAsn,
    /// There are no peers.
    NoPeers,
    /// `router_id` is not an IPv4 address.
    BadRouterId,
}

/// What a configuration can be spoken with.
pub open spec fn preflight_of(cfg: BgpCfg) -> Result<Speech, PreflightError> {
    if !(1 <= cfg.local_asn <= 65535) {
        Err(PreflightError::BadAsn)
    } else if cfg.peers@.len() == 0 {
        Err(PreflightError::NoPeers)
    } else {
        match net::address_of(cfg.router_id@) {
            Some(ip) => Ok(Speech { asn: cfg.local_asn as u16, router_id: ip }),
            None => Err(PreflightError::BadRouterId),
        }
    }
}

/// Checks the configuration: a two-byte ASN, at least one peer, and an IPv4
/// router id.
pub fn preflight(cfg: &BgpCfg) -> (r: Result<Speech, PreflightError>)
    ensures
        r == preflight_of(*cfg),
{
    if cfg.local_asn < 1 || cfg.local_asn > 65535 {
        return Err(PreflightError::BadAsn);
    }
    if cfg.peers.len() == 0 {
        return Err(PreflightError::NoPeers);
    }
    match Ipv4Addr::parse(cfg.router_id.as_str()) {
        Some(ip) => Ok(Speech { asn: cfg.local_asn as u16, router_id: ip }),
        None => Err(PreflightError::BadRouterId),
    }
}

/// The message of a preflight that failed.
pub open spec fn preflight_text(e: PreflightError) -> Seq<char> {
    match e {
        PreflightError::BadAsn => "bgp disabled: local_asn must be 1-65535"@,
        PreflightError::NoPeers => "bgp disabled: no peers"@,
        PreflightError::BadRouterId => "bgp disabled: router_id is not IPv4"@,
    }
}

impl PreflightError {
    /// The message.
    pub fn message(&self) -> (r: String)
        ensures
            r@ == preflight_text(*self),
    {
        match self {
            PreflightError::BadAsn => String::from_str("bgp disabled: local_asn must be 1-65535"),
            PreflightError::NoPeers => String::from_str("bgp disabled: no peers"),
            PreflightError::BadRouterId => String::from_str("bgp disabled: router_id is not IPv4"),
        }
    }
}

/// Where a peer is dialled.
pub open spec fn dialled(address: Seq<char>) -> Seq<char> {
    address + ":179"@
}

impl BgpPeer {
    /// Where this peer is dialled: its address, on TCP port 179.
    pub fn dial(&self) -> (r: String)
        ensures
            r@ == self.address@ + ":179"@,
            r@ == dialled(self.address@),
    {
        String::from_str(self.address.as_str()).concat(":179")
    }
}

// ---------------------------------------------------------------------------
// Messages
// ---------------------------------------------------------------------------

/// The seconds a peer may go without hearing from us.
pub const HOLD_SECS: u16 = 180;

/// The seconds between two keepalives, when the route is reconciled too.
pub const KEEPALIVE_SECS: u64 = 60;

/// The seconds after which a session that failed is dialled again.
pub const RECONNECT_SECS: u64 = 5;

/// The length of a message header.
pub const HEADER_LEN: usize = 19;

/// A 16-bit word, big end first.
pub open spec fn be16(w: int) -> Seq<u8> {
    seq![(w / 256) as u8, (w % 256) as u8]
}

/// A message: sixteen octets of ones, its length, its type, its body.
pub open spec fn message(kind: u8, body: Seq<u8>) -> Seq<u8> {
    Seq::new(16, |i: int| 0xffu8) + be16(19 + body.len() as int) + seq![kind] + body
}

/// The prefix `ip/32`.
pub open spec fn host_route(ip: Ipv4Addr) -> Seq<u8> {
    seq![32u8] + ip.bytes()
}

/// OPEN: version 4, the ASN, the hold time, the identifier, no optional
/// parameters.
pub open spec fn open_message(s: Speech) -> Seq<u8> {
    message(
        1,
        seq![4u8] + be16(s.asn as int) + be16(180) + s.router_id.bytes() + seq![0u8],
    )
}

/// KEEPALIVE: a header and no more.
pub open spec fn keepalive_message() -> Seq<u8> {
    message(4, seq![])
}

/// The attributes of the route: ORIGIN IGP, AS_PATH of the one ASN, NEXT_HOP
/// the router id.
pub open spec fn attributes(s: Speech) -> Seq<u8> {
    seq![0x40u8, 1u8, 1u8, 0u8] + (seq![0x40u8, 2u8, 4u8, 2u8, 1u8] + be16(s.asn as int)) + (seq![
        0x40u8,
        3u8,
        4u8,
    ] + s.router_id.bytes())
}

/// UPDATE that announces `vip/32`.
pub open spec fn announce_message(s: Speech, vip: Ipv4Addr) -> Seq<u8> {
    message(2, be16(0) + be16(attributes(s).len() as int) + attributes(s) + host_route(vip))
}

/// UPDATE that withdraws `vip/32`.
pub open spec fn withdraw_message(vip: Ipv4Addr) -> Seq<u8> {
    message(2, be16(host_route(vip).len() as int) + host_route(vip) + be16(0))
}

/// Puts a body into a message.
fn frame(kind: u8, body: &Vec<u8>) -> (r: Vec<u8>)
    requires
        body@.len() <= 4077,
    ensures
        r@ == message(kind, body@),
{
    let mut r: Vec<u8> = Vec::new();
    let mut i: usize = 0;
    while i < 16
        invariant
            i <= 16,
            r@ == Seq::new(i as nat, |k: int| 0xffu8),
        decreases 16 - i,
    {
        r.push(0xff);
        i += 1;
        assert(r@ =~= Seq::new(i as nat, |k: int| 0xffu8));
    }
    let len: usize = 19 + body.len();
    r.push((len / 256) as u8);
    r.push((len % 256) as u8);
    r.push(kind);
    r.extend_from_slice(body.as_slice());
    assert(r@ =~= message(kind, body@));
    r
}

/// Appends the octets of an address.
fn push_addr(v: &mut Vec<u8>, ip: Ipv4Addr)
    ensures
        final(v)@ == old(v)@ + ip.bytes(),
{
    v.push(ip.a);
    v.push(ip.b);
    v.push(ip.c);
    v.push(ip.d);
    assert(v@ =~= old(v)@ + ip.bytes());
}

/// The OPEN message.
pub fn encode_open(s: &Speech) -> (r: Vec<u8>)
    ensures
        r@ == open_message(*s),
{
    let mut b: Vec<u8> = Vec::new();
    b.push(4);
    b.push((s.asn / 256) as u8);
    b.push((s.asn % 256) as u8);
    b.push((HOLD_SECS / 256) as u8);
    b.push((HOLD_SECS % 256) as u8);
    push_addr(&mut b, s.router_id);
    b.push(0);
    assert(b@ =~= seq![4u8] + be16(s.asn as int) + be16(180) + s.router_id.bytes() + seq![0u8]);
    frame(1, &b)
}

/// The KEEPALIVE message.
pub fn encode_keepalive() -> (r: Vec<u8>)
    ensures
        r@ == keepalive_message(),
{
    let b: Vec<u8> = Vec::new();
    assert(b@ =~= seq![]);
    frame(4, &b)
}

/// The UPDATE that announces `vip/32`.
pub fn encode_announce(s: &Speech, vip: Ipv4Addr) -> (r: Vec<u8>)
    ensures
        r@ == announce_message(*s, vip),
{
    let mut b: Vec<u8> = Vec::new();
    b.push(0);
    b.push(0);
    b.push(0);
    b.push(18);
    b.push(0x40);
    b.push(1);
    b.push(1);
    b.push(0);
    b.push(0x40);
    b.push(2);
    b.push(4);
    b.push(2);
    b.push(1);
    b.push((s.asn / 256) as u8);
    b.push((s.asn % 256) as u8);
    b.push(0x40);
    b.push(3);
    b.push(4);
    push_addr(&mut b, s.router_id);
    b.push(32);
    push_addr(&mut b, vip);
    assert(attributes(*s).len() == 18);
    assert(b@ =~= be16(0) + be16(attributes(*s).len() as int) + attributes(*s) + host_route(vip));
    frame(2, &b)
}

/// The UPDATE that withdraws `vip/32`.
pub fn encode_withdraw(vip: Ipv4Addr) -> (r: Vec<u8>)
    ensures
        r@ == withdraw_message(vip),
{
    let mut b: Vec<u8> = Vec::new();
    b.push(0);
    b.push(5);
    b.push(32);
    push_addr(&mut b, vip);
    b.push(0);
    b.push(0);
    assert(host_route(vip).len() == 5);
    assert(b@ =~= be16(host_route(vip).len() as int) + host_route(vip) + be16(0));
    frame(2, &b)
}

/// What to do with a message that a peer sends, from its header.
#[derive(Debug, Clone, Copy, PartialEq, Eq, Structural)]
pub enum Inbound {
    /// Read so many octets of body, and discard them.
    Discard(usize),
    /// The session is over: a NOTIFICATION, or no message at all.
    End,
}

/// What a header leads to.
pub open spec fn inbound_of(header: Seq<u8>) -> Inbound {
    let len = header[16] as int * 256 + header[17];
    if header.len() != 19 || len < 19 || header[18] == 3 {
        Inbound::End
    } else {
        Inbound::Discard((len - 19) as usize)
    }
}

/// Decides on a message from its header.
pub fn on_header(header: &[u8]) -> (r: Inbound)
    ensures
        r == inbound_of(header@),
{
    if header.len() != HEADER_LEN {
        return Inbound::End;
    }
    let len: usize = header[16] as usize * 256 + header[17] as usize;
    if len < HEADER_LEN || header[18] == 3 {
        return Inbound::End;
    }
    Inbound::Discard(len - HEADER_LEN)
}

// ---------------------------------------------------------------------------
// The session
// ---------------------------------------------------------------------------

/// What to tell the peer of the route.
#[derive(Debug, Clone, Copy, PartialEq, Eq, Structural)]
pub enum RouteChange {
    Announce,
    Withdraw,
}

/// What a peer has been told.
pub struct Session {
    pub announced: bool,
}

/// What a peer that knows of the route, or not, is told of it.
pub open spec fn change_of(announced: bool, healthy: usize) -> Option<RouteChange> {
    if healthy > 0 && !announced {
        Some(RouteChange::Announce)
    } else if healthy == 0 && announced {
        Some(RouteChange::Withdraw)
    } else {
        None
    }
}

impl Session {
    /// A new session: the peer knows of no route.
    pub fn new() -> (r: Session)
        ensures
            !r.announced,
    {
        Session { announced: false }
    }

    /// Reconciles what the peer knows with the pool: the route stands while
    /// this node has at least one healthy backend, and not otherwise.
    pub fn reconcile(&mut self, healthy: usize) -> (r: Option<RouteChange>)
        ensures
            final(self).announced == (healthy > 0),
            r == (if healthy > 0 && !old(self).announced {
                Some(RouteChange::Announce)
            } else if healthy == 0 && old(self).announced {
                Some(RouteChange::Withdraw)
            } else {
                None
            }),
            r == change_of(old(self).announced, healthy),
    {
        if healthy > 0 && !self.announced {
            self.announced = true;
            Some(RouteChange::Announce)
        } else if healthy == 0 && self.announced {
            self.announced = false;
            Some(RouteChange::Withdraw)
        } else {
            None
        }
    }
}

// ---------------------------------------------------------------------------
// Laws
// ---------------------------------------------------------------------------

/// Every message says its own length, and a peer that reads by it finds the
/// next one; only a NOTIFICATION would end the session.
pub proof fn messages_say_their_length(kind: u8, body: Seq<u8>)
    requires
        body.len() <= 4077,
        kind != 3,
    ensures
        message(kind, body).len() == 19 + body.len(),
        inbound_of(message(kind, body).take(19)) == Inbound::Discard(body.len() as usize),
{
    let m = message(kind, body);
    let h = m.take(19);
    let len = 19 + body.len();
    assert(h[16] == be16(len as int)[0]);
    assert(h[17] == be16(len as int)[1]);
    assert(h[18] == kind);
    assert(h[16] as int * 256 + h[17] == len);
}

/// What a configuration passes the preflight with is its ASN and its router
/// id, unchanged.
pub proof fn preflight_keeps_the_configuration(cfg: BgpCfg)
    ensures
        preflight_of(cfg) matches Ok(s) ==> s.asn == cfg.local_asn && s.asn >= 1
            && cfg.peers@.len() > 0 && net::address_of(cfg.router_id@) == Some(s.router_id),
{
}

/// What the peer knows follows what it is told: after an announcement it has
/// the route and after a withdrawal it has not, so that it has it exactly
/// while a backend is healthy; and it is told nothing that it knows.
pub proof fn the_route_stands_while_a_backend_does(announced: bool, healthy: usize)
    ensures
        ({
            let known = match change_of(announced, healthy) {
                Some(RouteChange::Announce) => true,
                Some(RouteChange::Withdraw) => false,
                None => announced,
            };
            &&& known <==> healthy > 0
            &&& change_of(known, healthy) is None
            &&& change_of(announced, healthy) is Some <==> known != announced
        }),
{
}

/// What can be spoken for: an ASN of two octets that is not zero, at least
/// one peer, and a router id that is written as an IPv4 address. What is
/// wrong first is told.
pub proof fn a_configuration_is_refused_for_what_is_wrong(cfg: BgpCfg)
    ensures
        preflight_of(cfg) == Err::<Speech, PreflightError>(PreflightError::BadAsn) <==> cfg.local_asn
            == 0 || cfg.local_asn > 65535,
        preflight_of(cfg) == Err::<Speech, PreflightError>(PreflightError::NoPeers) <==> 1
            <= cfg.local_asn <= 65535 && cfg.peers@.len() == 0,
        forall|ip: Ipv4Addr|
            cfg.router_id@ == #[trigger] net::address_text(ip) && 1 <= cfg.local_asn <= 65535
                && cfg.peers@.len() > 0 ==> preflight_of(cfg) == Ok::<Speech, PreflightError>(
                Speech { asn: cfg.local_asn as u16, router_id: ip },
            ),
        preflight_of(cfg) is Ok ==> exists|ip: Ipv4Addr|
            cfg.router_id@ == #[trigger] net::address_text(ip),
{
    assert forall|ip: Ipv4Addr| cfg.router_id@ == #[trigger] net::address_text(
        ip,
    ) implies net::address_of(cfg.router_id@) == Some(ip) by {
        net::an_address_has_one_text(cfg.router_id@, ip);
    }
    if let Some(ip) = net::address_of(cfg.router_id@) {
        net::an_address_has_one_text(cfg.router_id@, ip);
        assert(cfg.router_id@ == net::address_text(ip));
    }
}

/// Every message begins with sixteen octets of ones, has its length in octets
/// 16 and 17, the high half first, its type in octet 18, and then its body.
pub proof fn messages_have_their_header_in_place(kind: u8, body: Seq<u8>, i: int)
    requires
        body.len() <= 4077,
    ensures
        ({
            let m = message(kind, body);
            &&& 0 <= i < 16 ==> m[i] == 0xff
            &&& m[16] as int * 256 + m[17] as int == m.len()
            &&& m.len() == 19 + body.len()
            &&& m[18] == kind
            &&& 0 <= i < body.len() ==> m[19 + i] == body[i]
        }),
{
}

/// OPEN (RFC 4271, 4.2): type 1; version 4 in octet 19, the ASN in octets 20
/// and 21, a hold time of 180 seconds in octets 22 and 23, the identifier in
/// octets 24 to 27, and no optional parameters.
pub proof fn open_has_its_fields_in_place(s: Speech)
    ensures
        ({
            let m = open_message(s);
            &&& m.len() == 29
            &&& m[18] == 1
            &&& m[19] == 4
            &&& m[20] as int * 256 + m[21] as int == s.asn
            &&& m[22] as int * 256 + m[23] as int == 180
            &&& m[24] == s.router_id.a && m[25] == s.router_id.b
            &&& m[26] == s.router_id.c && m[27] == s.router_id.d
            &&& m[28] == 0
        }),
{
}

/// KEEPALIVE (RFC 4271, 4.4): type 4, a header and nothing more.
pub proof fn keepalive_is_a_header()
    ensures
        keepalive_message().len() == 19,
        keepalive_message()[18] == 4,
        keepalive_message()[16] == 0,
        keepalive_message()[17] == 19,
{
}

/// UPDATE that announces (RFC 4271, 4.3): type 2; nothing is withdrawn, the
/// 18 octets of attributes are ORIGIN IGP, an AS_PATH of one sequence of one
/// ASN, and the NEXT_HOP, each well-known and transitive; then comes the VIP
/// as a prefix of 32 bits.
pub proof fn an_announcement_has_its_fields_in_place(s: Speech, vip: Ipv4Addr)
    ensures
        ({
            let m = announce_message(s, vip);
            &&& m.len() == 46
            &&& m[18] == 2
            &&& m[19] == 0 && m[20] == 0
            &&& m[21] == 0 && m[22] == 18
            &&& m[23] == 0x40 && m[24] == 1 && m[25] == 1 && m[26] == 0
            &&& m[27] == 0x40 && m[28] == 2 && m[29] == 4 && m[30] == 2 && m[31] == 1
            &&& m[32] as int * 256 + m[33] as int == s.asn
            &&& m[34] == 0x40 && m[35] == 3 && m[36] == 4
            &&& m[37] == s.router_id.a && m[38] == s.router_id.b
            &&& m[39] == s.router_id.c && m[40] == s.router_id.d
            &&& m[41] == 32
            &&& m[42] == vip.a && m[43] == vip.b && m[44] == vip.c && m[45] == vip.d
        }),
{
    assert(attributes(s).len() == 18);
}

/// UPDATE that withdraws (RFC 4271, 4.3): type 2; the five octets of the
/// VIP's prefix are withdrawn, and there are no attributes.
pub proof fn a_withdrawal_has_its_fields_in_place(vip: Ipv4Addr)
    ensures
        ({
            let m = withdraw_message(vip);
            &&& m.len() == 28
            &&& m[18] == 2
            &&& m[19] == 0 && m[20] == 5
            &&& m[21] == 32
            &&& m[22] == vip.a && m[23] == vip.b && m[24] == vip.c && m[25] == vip.d
            &&& m[26] == 0 && m[27] == 0
        }),
{
    assert(host_route(vip).len() == 5);
}

/// A session goes on with a whole header of any type but NOTIFICATION whose
/// length is at least its own, and skips exactly the body that the length
/// counts; with anything else it ends.
pub proof fn a_session_ends_on_a_notification(header: Seq<u8>)
    ensures
        inbound_of(header) == Inbound::End <==> header.len() != 19 || header[18] == 3 || header[16]
            as int * 256 + header[17] < 19,
        inbound_of(header) matches Inbound::Discard(n) ==> 19 + n == header[16] as int * 256
            + header[17],
{
}

/// A peer is dialled at its address, on the port of BGP; what is wrong with a
/// configuration is told apart; a speaker that speaks to nobody says so.
pub proof fn peers_are_dialled_on_their_port(address: Seq<char>, e: PreflightError)
    ensures
        dialled(address).take(address.len() as int) == address,
        dialled(address).skip(address.len() as int) == ":"@ + text::decimal(179),
        e == PreflightError::BadAsn ==> preflight_text(e)
            == "bgp disabled: local_asn must be 1-65535"@,
        e == PreflightError::NoPeers ==> preflight_text(e) == "bgp disabled: no peers"@,
        e == PreflightError::BadRouterId ==> preflight_text(e)
            == "bgp disabled: router_id is not IPv4"@,
        HOLD_SECS == 180 && KEEPALIVE_SECS == 60 && RECONNECT_SECS == 5,
{
    reveal_strlit(":179");
    reveal_strlit(":");
    reveal_with_fuel(text::decimal, 4);
    assert(dialled(address).take(address.len() as int) =~= address);
    assert(dialled(address).skip(address.len() as int) =~= ":"@ + text::decimal(179));
}

} // verus!
