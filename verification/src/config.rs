//! The configuration, and what to start from it.

use crate::net;
use crate::net::Ipv4Addr;
use crate::router::RouterCfg;
use crate::text;
use vstd::prelude::*;

verus! {

/// The whole configuration.
#[derive(Debug)]
pub struct Config {
    /// The L4 VIP balancer. Optional, because a node can run only the L7
    /// router: on a single node the VIP is the node's own address and there
    /// is nothing to float.
    pub vip: Option<Vip>,
    pub backends: Vec<BackendCfg>,
    pub health: HealthSpec,
    pub vrrp: VrrpCfg,
    pub bgp: BgpCfg,
    /// The L7 Host-header router over HTTPRoutes. Present is enabled.
    pub router: Option<RouterCfg>,
}

/// The virtual IP fronted by this balancer, and where the L4 proxy listens.
#[derive(Debug)]
pub struct Vip {
    /// The VIP address (owned via VRRP or advertised via BGP).
    pub address: String,
    pub port: u16,
    /// Address the L4 proxy binds. The wildcard accepts whether or not this
    /// node holds the VIP.
    pub bind: String,
}

pub fn default_bind() -> (r: String)
    ensures
        r@ == "0.0.0.0"@,
{
    String::from_str("0.0.0.0")
}

/// `host:port`, with the port in decimal.
pub open spec fn host_port(host: Seq<char>, port: u16) -> Seq<char> {
    host + ":"@ + text::decimal(port as nat)
}

fn host_port_text(host: &str, port: u16) -> (r: String)
    ensures
        r@ == host_port(host@, port),
{
    String::from_str(host).concat(":").concat(text::decimal_text(port as u128).as_str())
}

impl Vip {
    /// Where the L4 proxy listens: `bind:port`.
    pub fn listen(&self) -> (r: String)
        ensures
            r@ == host_port(self.bind@, self.port),
    {
        host_port_text(self.bind.as_str(), self.port)
    }
}

/// Where a backend is dialled, or why it is not.
pub open spec fn dialled_at(address: Seq<char>, port: u16) -> Result<Seq<char>, Seq<char>> {
    match net::socket_text(address, port) {
        Some(t) => Ok(t),
        None => Err("invalid socket address syntax"@),
    }
}

/// A backend behind the VIP.
#[derive(Debug)]
pub struct BackendCfg {
    pub address: String,
    pub port: u16,
}

impl BackendCfg {
    /// The socket address of this backend, as the text that it is read from:
    /// `address:port`, with an IPv6 address in brackets. The address is an IP
    /// literal; a hostname is not resolved, and is an error.
    pub fn socket_addr(&self) -> (r: Result<String, String>)
        ensures
            match r {
                Ok(t) => net::socket_text(self.address@, self.port) == Some(t@),
                Err(e) => net::socket_text(self.address@, self.port) is None && e@
                    == "invalid socket address syntax"@,
            },
            match r {
                Ok(t) => dialled_at(self.address@, self.port) == Ok::<Seq<char>, Seq<char>>(t@),
                Err(e) => dialled_at(self.address@, self.port) == Err::<Seq<char>, Seq<char>>(e@),
            },
    {
        match net::socket(self.address.as_str(), self.port) {
            Some(t) => Ok(t),
            None => Err(String::from_str("invalid socket address syntax")),
        }
    }
}

/// How backends are checked.
#[derive(Debug, Clone)]
pub struct HealthSpec {
    pub mode: HealthMode,
    /// Request path for http/https checks (e.g. `/readyz`).
    pub path: String,
    pub interval_secs: u64,
    pub timeout_secs: u64,
    /// HTTP status codes considered healthy.
    pub expect_status: Vec<u16>,
}

/// Whether these are the checks that are made where none are configured.
pub open spec fn is_default_health(h: HealthSpec) -> bool {
    &&& h.mode == HealthMode::Tcp
    &&& h.path@ == "/readyz"@
    &&& h.interval_secs == 2
    &&& h.timeout_secs == 2
    &&& h.expect_status@ == seq![200u16]
}

impl Default for HealthSpec {
    fn default() -> (r: Self)
        ensures
            r.mode == HealthMode::Tcp,
            r.path@ == "/readyz"@,
            r.interval_secs == 2,
            r.timeout_secs == 2,
            r.expect_status@ == seq![200u16],
            is_default_health(r),
    {
        HealthSpec {
            mode: HealthMode::Tcp,
            path: default_path(),
            interval_secs: default_interval(),
            timeout_secs: default_timeout(),
            expect_status: default_expect(),
        }
    }
}

pub fn default_path() -> (r: String)
    ensures
        r@ == "/readyz"@,
{
    String::from_str("/readyz")
}

pub fn default_interval() -> (r: u64)
    ensures
        r == 2,
{
    2
}

pub fn default_timeout() -> (r: u64)
    ensures
        r == 2,
{
    2
}

pub fn default_expect() -> (r: Vec<u16>)
    ensures
        r@ == seq![200u16],
{
    let mut v: Vec<u16> = Vec::new();
    v.push(200);
    assert(v@ =~= seq![200u16]);
    v
}

/// How a backend is asked.
#[derive(Debug, Clone, Copy, PartialEq, Eq, Structural)]
pub enum HealthMode {
    /// A successful TCP connect marks the backend healthy.
    Tcp,
    Http,
    Https,
}

impl Default for HealthMode {
    fn default() -> (r: Self)
        ensures
            r == HealthMode::Tcp,
    {
        HealthMode::Tcp
    }
}

/// VRRP (L2) VIP ownership: one node holds the VIP.
#[derive(Debug)]
pub struct VrrpCfg {
    pub enabled: bool,
    pub interface: String,
    pub vrid: u8,
    /// Higher wins. 255 is the address owner (starts Master).
    pub priority: u8,
    pub advert_interval_secs: u64,
}

/// Whether this is the VRRP that runs where none is configured.
pub open spec fn is_default_vrrp(v: VrrpCfg) -> bool {
    &&& !v.enabled
    &&& v.interface@ == Seq::<char>::empty()
    &&& v.vrid == 51
    &&& v.priority == 100
    &&& v.advert_interval_secs == 1
}

impl Default for VrrpCfg {
    fn default() -> (r: Self)
        ensures
            !r.enabled,
            r.interface@ == Seq::<char>::empty(),
            r.vrid == 51,
            r.priority == 100,
            r.advert_interval_secs == 1,
            is_default_vrrp(r),
    {
        VrrpCfg {
            enabled: false,
            interface: String::new(),
            vrid: default_vrid(),
            priority: default_priority(),
            advert_interval_secs: default_advert(),
        }
    }
}

pub fn default_vrid() -> (r: u8)
    ensures
        r == 51,
{
    51
}

pub fn default_priority() -> (r: u8)
    ensures
        r == 100,
{
    100
}

pub fn default_advert() -> (r: u64)
    ensures
        r == 1,
{
    1
}

/// BGP-anycast (L3) advertisement: active-active across nodes via ECMP.
#[derive(Debug)]
pub struct BgpCfg {
    pub enabled: bool,
    pub local_asn: u32,
    pub router_id: String,
    pub peers: Vec<BgpPeer>,
}

impl Default for BgpCfg {
    fn default() -> (r: Self)
        ensures
            !r.enabled,
            r.local_asn == 0,
            r.router_id@ == Seq::<char>::empty(),
            r.peers@ == Seq::<BgpPeer>::empty(),
    {
        BgpCfg { enabled: false, local_asn: 0, router_id: String::new(), peers: Vec::new() }
    }
}

/// A BGP peer.
#[derive(Debug, Clone)]
pub struct BgpPeer {
    pub address: String,
    pub asn: u32,
}

// ---------------------------------------------------------------------------
// What to start
// ---------------------------------------------------------------------------

/// What runs.
pub enum Startup {
    /// The router and nothing else.
    RouterOnly,
    /// The L4 balancer in the foreground, for this VIP, with the health
    /// loop; and what else the configuration enables.
    Balancer { vip: Ipv4Addr, vrrp: bool, bgp: bool, router: bool },
}

/// Why nothing runs.
pub enum StartError {
    /// Neither `[vip]` nor `[router]`.
    NothingToDo,
    /// `vip.address` is not an IPv4 address.
    BadVip,
}

/// What a configuration starts.
pub open spec fn startup_of(cfg: Config) -> Result<Startup, StartError> {
    match cfg.vip {
        None => if cfg.router is Some {
            Ok(Startup::RouterOnly)
        } else {
            Err(StartError::NothingToDo)
        },
        Some(v) => match net::address_of(v.address@) {
            Some(ip) => Ok(
                Startup::Balancer {
                    vip: ip,
                    vrrp: cfg.vrrp.enabled,
                    bgp: cfg.bgp.enabled,
                    router: cfg.router is Some,
                },
            ),
            None => Err(StartError::BadVip),
        },
    }
}

impl Config {
    /// What this configuration starts: the router alone where there is no
    /// `[vip]`; the balancer, and what goes with it, where there is one.
    pub fn startup(&self) -> (r: Result<Startup, StartError>)
        ensures
            r == startup_of(*self),
    {
        match &self.vip {
            None => if self.router.is_some() {
                Ok(Startup::RouterOnly)
            } else {
                Err(StartError::NothingToDo)
            },
            Some(v) => match Ipv4Addr::parse(v.address.as_str()) {
                Some(ip) => Ok(
                    Startup::Balancer {
                        vip: ip,
                        vrrp: self.vrrp.enabled,
                        bgp: self.bgp.enabled,
                        router: self.router.is_some(),
                    },
                ),
                None => Err(StartError::BadVip),
            },
        }
    }
}

/// The message of a start that failed.
pub open spec fn start_error_text(e: StartError) -> Seq<char> {
    match e {
        StartError::NothingToDo => "nothing to do"@,
        StartError::BadVip => "vip.address is not an IPv4 address"@,
    }
}

impl StartError {
    /// The message.
    pub fn message(&self) -> (r: String)
        ensures
            r@ == start_error_text(*self),
    {
        match self {
            StartError::NothingToDo => String::from_str("nothing to do"),
            StartError::BadVip => String::from_str("vip.address is not an IPv4 address"),
        }
    }
}

// ---------------------------------------------------------------------------
// Laws
// ---------------------------------------------------------------------------

/// What starts: the router alone exactly where there is `[router]` and no
/// `[vip]`; nothing exactly where there is neither, or a VIP that is not
/// written as an IPv4 address; and otherwise the balancer for that address,
/// with VRRP, BGP and the router exactly as they are configured.
pub proof fn a_configuration_starts_what_it_names(cfg: Config)
    ensures
        startup_of(cfg) == Ok::<Startup, StartError>(Startup::RouterOnly) <==> cfg.vip is None
            && cfg.router is Some,
        startup_of(cfg) == Err::<Startup, StartError>(StartError::NothingToDo) <==> cfg.vip is None
            && cfg.router is None,
        startup_of(cfg) == Err::<Startup, StartError>(StartError::BadVip) <==> (cfg.vip matches Some(
            v,
        ) && forall|ip: Ipv4Addr| v.address@ != #[trigger] net::address_text(ip)),
        forall|ip: Ipv4Addr|
            (cfg.vip matches Some(v) && v.address@ == #[trigger] net::address_text(ip))
                ==> startup_of(cfg) == Ok::<Startup, StartError>(
                Startup::Balancer {
                    vip: ip,
                    vrrp: cfg.vrrp.enabled,
                    bgp: cfg.bgp.enabled,
                    router: cfg.router is Some,
                },
            ),
{
    if let Some(v) = cfg.vip {
        assert forall|ip: Ipv4Addr| v.address@ == #[trigger] net::address_text(
            ip,
        ) implies net::address_of(v.address@) == Some(ip) by {
            net::an_address_has_one_text(v.address@, ip);
        }
        if let Some(ip) = net::address_of(v.address@) {
            net::an_address_has_one_text(v.address@, ip);
            assert(v.address@ == net::address_text(ip));
        }
    }
}

/// The proxy listens on the address that is configured and on the VIP's port.
pub proof fn the_proxy_listens_on_its_port(host: Seq<char>, port: u16)
    ensures
        host_port(host, port).take(host.len() as int) == host,
        host_port(host, port).skip(host.len() as int) == ":"@ + text::decimal(port as nat),
{
    assert(host_port(host, port).take(host.len() as int) =~= host);
    assert(host_port(host, port).skip(host.len() as int) =~= ":"@ + text::decimal(port as nat));
}

/// Where nothing is configured, backends are connected to every two seconds
/// and have two seconds to answer; and VRRP is off.
pub proof fn defaults_check_by_connecting(h: HealthSpec, v: VrrpCfg)
    requires
        is_default_health(h),
        is_default_vrrp(v),
    ensures
        h.mode == HealthMode::Tcp,
        h.interval_secs == 2,
        h.timeout_secs == 2,
        h.path@ == "/readyz"@,
        h.expect_status@.len() == 1 && h.expect_status@[0] == 200,
        !v.enabled,
        v.interface@.len() == 0,
        v.vrid == 51,
        v.priority == 100,
        v.advert_interval_secs == 1,
{
}

/// A backend is dialled at an address, on its port: an IPv4 address as it is
/// written, an IPv6 address between brackets. A name is refused.
pub proof fn backends_are_dialled_at_addresses(address: Seq<char>, port: u16, ip: Ipv4Addr)
    ensures
        address == net::address_text(ip) ==> dialled_at(address, port) == Ok::<
            Seq<char>,
            Seq<char>,
        >(address + ":"@ + text::decimal(port as nat)),
        dialled_at(address, port) is Ok <==> net::address_of(address) is Some || net::is_ipv6(
            address,
        ) || net::is_bracketed(address),
        dialled_at(address, port) matches Err(e) ==> e == "invalid socket address syntax"@,
{
    net::literals_have_a_socket_address(address, port);
    if address == net::address_text(ip) {
        net::addresses_have_a_socket_address(ip, port);
    }
}

/// A start that failed says why.
pub proof fn a_failed_start_says_why(e: StartError)
    ensures
        e is NothingToDo ==> start_error_text(e) == "nothing to do"@,
        e is BadVip ==> start_error_text(e) == "vip.address is not an IPv4 address"@,
{
}

} // verus!
