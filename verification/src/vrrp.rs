//! VRRP v3 (RFC 5798): virtual-router state machine and advertisement codec.
//!
//! This owns the L2 failover logic: which node holds the VIP and when it
//! changes between Master and Backup. The socket and the interface are the
//! caller's: it feeds [`VirtualRouter`] events, and performs the [`Action`]
//! that comes back.

use crate::net::Ipv4Addr;
use vstd::prelude::*;

verus! {

#[derive(Debug, Clone, Copy, PartialEq, Eq, Structural)]
pub enum State {
    Initialize,
    Backup,
    Master,
}

/// One VRRP virtual router instance.
#[derive(Debug, Clone, Copy)]
pub struct VirtualRouter {
    pub vrid: u8,
    /// 1..=255; higher wins. 255 is the VIP's address owner (starts Master).
    pub priority: u8,
    /// Advertisement interval in centiseconds.
    pub advert_interval_centis: u16,
    pub state: State,
}

/// What the caller is to do next.
#[derive(Debug, Clone, Copy, PartialEq, Eq, Structural)]
pub enum Action {
    /// Nothing; go on waiting.
    Wait,
    /// Send an advertisement.
    Advertise,
    /// Claim the VIP: this node is now Master.
    Claim,
    /// Release the VIP: this node is no longer Master.
    Release,
    /// A Master is alive: start the master-down time anew.
    Restart,
}

/// Whether a peer's advertisement outranks a router: a higher priority, or
/// the same one from a higher address.
pub open spec fn outranks(
    peer_priority: u8,
    peer_addr: Ipv4Addr,
    priority: u8,
    addr: Ipv4Addr,
) -> bool {
    ||| peer_priority > priority
    ||| peer_priority == priority && peer_addr.number() > addr.number()
}

/// Master_Down_Interval in centiseconds: three advertisement intervals and
/// the skew time, which is the longer the lower the priority (RFC 5798, 6.1).
pub open spec fn master_down(advert: int, priority: int) -> int {
    3 * advert + ((256 - priority) * advert) / 256
}

/// The advertisement interval in centiseconds, for one that is configured in
/// seconds.
pub open spec fn interval_of(secs: nat) -> nat {
    if secs < 1 {
        100
    } else if secs > 655 {
        65535
    } else {
        secs * 100
    }
}

/// Whether a router in this state takes over when the master-down time has
/// passed.
pub open spec fn takes_over(state: State) -> bool {
    state == State::Backup
}

/// Whether a router in this state gives up the VIP for an advertisement.
pub open spec fn gives_way(
    state: State,
    priority: u8,
    addr: Ipv4Addr,
    peer_priority: u8,
    peer_addr: Ipv4Addr,
) -> bool {
    state == State::Master && outranks(peer_priority, peer_addr, priority, addr)
}

impl VirtualRouter {
    /// What a start leads to: the address owner is Master at once.
    pub open spec fn start_step(self) -> (Action, State) {
        if self.priority == 255 {
            (Action::Claim, State::Master)
        } else {
            (Action::Wait, State::Backup)
        }
    }

    /// What the timer leads to.
    pub open spec fn timer_step(self, idle_centis: u32) -> (Action, State) {
        match self.state {
            State::Initialize => (Action::Wait, State::Initialize),
            State::Master => if idle_centis >= self.advert_interval_centis {
                (Action::Advertise, State::Master)
            } else {
                (Action::Wait, State::Master)
            },
            State::Backup => if idle_centis >= master_down(
                self.advert_interval_centis as int,
                self.priority as int,
            ) {
                (Action::Claim, State::Master)
            } else {
                (Action::Wait, State::Backup)
            },
        }
    }

    /// What a packet leads to.
    pub open spec fn packet_step(
        self,
        packet: Seq<u8>,
        peer_addr: Ipv4Addr,
        our_addr: Ipv4Addr,
    ) -> (Action, State) {
        match advertisement_in(packet) {
            Some(ad) => if ad.vrid != self.vrid {
                (Action::Wait, self.state)
            } else if self.state == State::Backup {
                (Action::Restart, State::Backup)
            } else if self.state == State::Master && outranks(
                ad.priority,
                peer_addr,
                self.priority,
                our_addr,
            ) {
                (Action::Release, State::Backup)
            } else {
                (Action::Wait, self.state)
            },
            None => (Action::Wait, self.state),
        }
    }

    /// An instance that has not started. The interval is at least a second,
    /// and at most what its 16 bits of centiseconds hold.
    pub fn new(vrid: u8, priority: u8, advert_interval_secs: u64) -> (r: Self)
        ensures
            r.vrid == vrid,
            r.priority == priority,
            r.state == State::Initialize,
            r.advert_interval_centis == ({
                let secs = if advert_interval_secs < 1 {
                    1int
                } else {
                    advert_interval_secs as int
                };
                if secs * 100 > u16::MAX {
                    u16::MAX as int
                } else {
                    secs * 100
                }
            }),
            r.advert_interval_centis >= 100,
            1 <= advert_interval_secs <= 655 ==> r.advert_interval_centis == 100
                * advert_interval_secs,
            advert_interval_secs == 0 ==> r.advert_interval_centis == 100,
            advert_interval_secs > 655 ==> r.advert_interval_centis == 65535,
            r.advert_interval_centis == interval_of(advert_interval_secs as nat),
    {
        let secs: u64 = if advert_interval_secs < 1 {
            1
        } else {
            advert_interval_secs
        };
        let centis: u16 = if secs > 655 {
            65535
        } else {
            secs as u16 * 100
        };
        VirtualRouter {
            vrid,
            priority,
            advert_interval_centis: centis,
            state: State::Initialize,
        }
    }

    /// The master-down interval, in centiseconds.
    pub fn master_down_interval_centis(&self) -> (r: u32)
        ensures
            r == master_down(self.advert_interval_centis as int, self.priority as int),
    {
        let advert: u32 = self.advert_interval_centis as u32;
        let p: u32 = self.priority as u32;
        assert(0 <= (256 - p) * advert <= 256 * 65535) by (nonlinear_arith)
            requires
                0 <= p <= 255,
                0 <= advert <= 65535,
        ;
        let skew: u32 = ((256 - p) * advert) / 256;
        3 * advert + skew
    }

    /// Startup: the address owner (priority 255) goes straight to Master;
    /// everyone else starts as Backup and waits for the master-down time.
    pub fn start(&mut self) -> (r: State)
        ensures
            *final(self) == (VirtualRouter { state: r, ..*old(self) }),
            r == (if old(self).priority == 255 {
                State::Master
            } else {
                State::Backup
            }),
            r == old(self).start_step().1,
    {
        self.state = if self.priority == 255 {
            State::Master
        } else {
            State::Backup
        };
        self.state
    }

    /// The master-down time passed while Backup: take over as Master.
    /// Returns whether to claim the VIP now.
    pub fn on_master_down_timeout(&mut self) -> (r: bool)
        ensures
            r == (old(self).state == State::Backup),
            r == takes_over(old(self).state),
            *final(self) == (if r {
                VirtualRouter { state: State::Master, ..*old(self) }
            } else {
                *old(self)
            }),
    {
        if self.state == State::Backup {
            self.state = State::Master;
            return true;
        }
        false
    }

    /// An advertisement came from a peer. Returns whether this made us
    /// release the VIP (Master to Backup). In Backup the caller starts the
    /// master-down time anew.
    pub fn on_advertisement(
        &mut self,
        peer_priority: u8,
        peer_addr: Ipv4Addr,
        our_addr: Ipv4Addr,
    ) -> (r: bool)
        ensures
            r == (old(self).state == State::Master && outranks(
                peer_priority,
                peer_addr,
                old(self).priority,
                our_addr,
            )),
            r == gives_way(
                old(self).state,
                old(self).priority,
                our_addr,
                peer_priority,
                peer_addr,
            ),
            *final(self) == (if r {
                VirtualRouter { state: State::Backup, ..*old(self) }
            } else {
                *old(self)
            }),
    {
        match self.state {
            State::Master => {
                let preempted = peer_priority > self.priority || (peer_priority == self.priority
                    && peer_addr.above(&our_addr));
                if preempted {
                    self.state = State::Backup;
                    return true;
                }
                false
            },
            State::Backup => false,
            State::Initialize => false,
        }
    }

    /// Starts the instance, and says whether to claim the VIP at once.
    pub fn on_start(&mut self) -> (r: Action)
        ensures
            *final(self) == (VirtualRouter {
                state: if old(self).priority == 255 {
                    State::Master
                } else {
                    State::Backup
                },
                ..*old(self)
            }),
            r == (if old(self).priority == 255 {
                Action::Claim
            } else {
                Action::Wait
            }),
            (r, final(self).state) == old(self).start_step(),
    {
        if self.start() == State::Master {
            Action::Claim
        } else {
            Action::Wait
        }
    }

    /// The timer: `idle_centis` have passed since this Master last sent an
    /// advertisement, or this Backup last heard one. A Master advertises
    /// every interval; a Backup takes over after the master-down interval.
    pub fn on_timer(&mut self, idle_centis: u32) -> (r: Action)
        ensures
            r == (match old(self).state {
                State::Initialize => Action::Wait,
                State::Master => if idle_centis >= old(self).advert_interval_centis {
                    Action::Advertise
                } else {
                    Action::Wait
                },
                State::Backup => if idle_centis >= master_down(
                    old(self).advert_interval_centis as int,
                    old(self).priority as int,
                ) {
                    Action::Claim
                } else {
                    Action::Wait
                },
            }),
            (r, final(self).state) == old(self).timer_step(idle_centis),
            *final(self) == (if r == Action::Claim {
                VirtualRouter { state: State::Master, ..*old(self) }
            } else {
                *old(self)
            }),
    {
        match self.state {
            State::Initialize => Action::Wait,
            State::Master => if idle_centis >= self.advert_interval_centis as u32 {
                Action::Advertise
            } else {
                Action::Wait
            },
            State::Backup => {
                if idle_centis >= self.master_down_interval_centis()
                    && self.on_master_down_timeout() {
                    Action::Claim
                } else {
                    Action::Wait
                }
            },
        }
    }

    /// A packet came from `peer_addr`. One that is no advertisement for this
    /// virtual router is ignored.
    pub fn on_packet(&mut self, packet: &[u8], peer_addr: Ipv4Addr, our_addr: Ipv4Addr) -> (r:
        Action)
        ensures
            r == (match advertisement_in(packet@) {
                Some(ad) => if ad.vrid != old(self).vrid {
                    Action::Wait
                } else if old(self).state == State::Backup {
                    Action::Restart
                } else if old(self).state == State::Master && outranks(
                    ad.priority,
                    peer_addr,
                    old(self).priority,
                    our_addr,
                ) {
                    Action::Release
                } else {
                    Action::Wait
                },
                None => Action::Wait,
            }),
            (r, final(self).state) == old(self).packet_step(packet@, peer_addr, our_addr),
            *final(self) == (if r == Action::Release {
                VirtualRouter { state: State::Backup, ..*old(self) }
            } else {
                *old(self)
            }),
    {
        match parse_advertisement(packet) {
            Some(ad) => {
                if ad.vrid != self.vrid {
                    return Action::Wait;
                }
                if self.state == State::Backup {
                    return Action::Restart;
                }
                if self.on_advertisement(ad.priority, peer_addr, our_addr) {
                    Action::Release
                } else {
                    Action::Wait
                }
            },
            None => Action::Wait,
        }
    }
}

// ---------------------------------------------------------------------------
// The checksum
// ---------------------------------------------------------------------------

/// The sum of the 16-bit words of some bytes, big end first; an odd last
/// byte is the high half of a word.
pub open spec fn word_sum(data: Seq<u8>) -> nat
    decreases data.len(),
{
    if data.len() == 0 {
        0
    } else if data.len() == 1 {
        data[0] as nat * 256
    } else {
        data[0] as nat * 256 + data[1] as nat + word_sum(data.skip(2))
    }
}

/// A sum in 16 bits, with every carry added back in: the number from 1 to
/// 65535 that leaves the same remainder by 65535, and 0 for 0.
pub open spec fn end_around(n: nat) -> nat {
    if n == 0 {
        0
    } else {
        (n - 1) as nat % 65535 + 1
    }
}

/// The 16-bit one's-complement checksum.
pub open spec fn checksum_of(data: Seq<u8>) -> nat {
    (65535 - end_around(word_sum(data))) as nat
}

/// Standard 16-bit one's-complement checksum over the buffer.
pub fn ones_complement_checksum(data: &[u8]) -> (r: u16)
    ensures
        r == checksum_of(data@),
{
    let mut acc: u32 = 0;
    let mut i: usize = 0;
    let ghost mut seen: nat = 0;
    assert(data@.skip(0) =~= data@);
    while i < data.len()
        invariant
            i <= data@.len(),
            word_sum(data@) == seen + word_sum(data@.skip(i as int)),
            acc == end_around(seen),
            acc <= 65535,
        decreases data.len() - i,
    {
        let ghost rest = data@.skip(i as int);
        let w: u32 = if data.len() - i >= 2 {
            data[i] as u32 * 256 + data[i + 1] as u32
        } else {
            data[i] as u32 * 256
        };
        proof {
            assert(rest[0] == data@[i as int]);
            if data@.len() - i >= 2 {
                assert(rest[1] == data@[i + 1]);
                assert(rest.skip(2) =~= data@.skip(i + 2));
            } else {
                assert(data@.skip(data@.len() as int) =~= seq![]);
            }
        }
        acc = if acc + w > 65535 {
            acc + w - 65535
        } else {
            acc + w
        };
        proof {
            seen = seen + w as nat;
        }
        i = if data.len() - i >= 2 {
            i + 2
        } else {
            data.len()
        };
    }
    assert(data@.skip(i as int) =~= seq![]);
    (65535 - acc) as u16
}

// ---------------------------------------------------------------------------
// The advertisement
// ---------------------------------------------------------------------------

/// The high half of a 16-bit word.
pub open spec fn high(w: int) -> u8 {
    (w / 256) as u8
}

/// The low half of a 16-bit word.
pub open spec fn low(w: int) -> u8 {
    (w % 256) as u8
}

/// The octets of some addresses, one after the other.
pub open spec fn octets_of(vips: Seq<Ipv4Addr>) -> Seq<u8>
    decreases vips.len(),
{
    if vips.len() == 0 {
        seq![]
    } else {
        octets_of(vips.drop_last()) + vips.last().bytes()
    }
}

/// An advertisement with this checksum (RFC 5798, 5.1): version and type,
/// virtual router, priority, count of addresses, interval in 12 bits,
/// checksum, addresses.
pub open spec fn packet_with(
    vrid: u8,
    priority: u8,
    advert_interval_centis: u16,
    vips: Seq<Ipv4Addr>,
    checksum: int,
) -> Seq<u8> {
    seq![
        0x31u8,
        vrid,
        priority,
        (vips.len() % 256) as u8,
        high(advert_interval_centis as int % 4096),
        low(advert_interval_centis as int % 4096),
        high(checksum),
        low(checksum),
    ] + octets_of(vips)
}

/// The advertisement: the checksum is over the packet with none in it.
pub open spec fn packet_of(
    vrid: u8,
    priority: u8,
    advert_interval_centis: u16,
    vips: Seq<Ipv4Addr>,
) -> Seq<u8> {
    packet_with(
        vrid,
        priority,
        advert_interval_centis,
        vips,
        checksum_of(packet_with(vrid, priority, advert_interval_centis, vips, 0)) as int,
    )
}

/// Encodes a VRRP v3 IPv4 advertisement (the VRRP payload, not the IP
/// header).
pub fn encode_advertisement(
    vrid: u8,
    priority: u8,
    advert_interval_centis: u16,
    vips: &[Ipv4Addr],
) -> (r: Vec<u8>)
    ensures
        r@ == packet_of(vrid, priority, advert_interval_centis, vips@),
        r@.len() == 8 + 4 * vips@.len(),
        r@[0] == 0x31,
        r@[1] == vrid,
        r@[2] == priority,
        r@[3] == vips@.len() % 256,
        r@[4] as int * 256 + r@[5] as int == advert_interval_centis as int % 4096,
        r@[6] as int * 256 + r@[7] as int == checksum_of(r@.update(6, 0).update(7, 0)),
        forall|i: int|
            #![trigger vips@[i]]
            0 <= i < vips@.len() ==> r@[8 + 4 * i] == vips@[i].a && r@[9 + 4 * i] == vips@[i].b
                && r@[10 + 4 * i] == vips@[i].c && r@[11 + 4 * i] == vips@[i].d,
{
    let mai: u16 = advert_interval_centis % 4096;
    let mut p: Vec<u8> = Vec::new();
    p.push(0x31);
    p.push(vrid);
    p.push(priority);
    p.push((vips.len() % 256) as u8);
    p.push((mai / 256) as u8);
    p.push((mai % 256) as u8);
    p.push(0);
    p.push(0);
    let ghost head = p@;
    let mut i: usize = 0;
    assert(vips@.take(0) =~= seq![]);
    assert(p@ =~= head + octets_of(vips@.take(0)));
    while i < vips.len()
        invariant
            i <= vips@.len(),
            p@ == head + octets_of(vips@.take(i as int)),
        decreases vips.len() - i,
    {
        let v = vips[i];
        p.push(v.a);
        p.push(v.b);
        p.push(v.c);
        p.push(v.d);
        proof {
            let t = vips@.take(i + 1);
            assert(t.drop_last() =~= vips@.take(i as int));
            assert(p@ =~= head + octets_of(t));
        }
        i += 1;
    }
    assert(vips@.take(i as int) =~= vips@);
    assert(p@ =~= packet_with(vrid, priority, advert_interval_centis, vips@, 0));
    let ck = ones_complement_checksum(p.as_slice());
    p.set(6, (ck / 256) as u8);
    p.set(7, (ck % 256) as u8);
    assert(p@ =~= packet_of(vrid, priority, advert_interval_centis, vips@));
    proof {
        advertisements_have_their_fields_in_place(vrid, priority, advert_interval_centis, vips@);
    }
    p
}

/// What an advertisement says.
pub struct Advertisement {
    pub vrid: u8,
    pub priority: u8,
    pub advert_interval_centis: u16,
    pub vips: Vec<Ipv4Addr>,
}

/// What an advertisement says.
#[verifier::ext_equal]
pub struct AdvertisementView {
    pub vrid: u8,
    pub priority: u8,
    pub advert_interval_centis: u16,
    pub vips: Seq<Ipv4Addr>,
}

impl View for Advertisement {
    type V = AdvertisementView;

    open spec fn view(&self) -> AdvertisementView {
        AdvertisementView {
            vrid: self.vrid,
            priority: self.priority,
            advert_interval_centis: self.advert_interval_centis,
            vips: self.vips@,
        }
    }
}

/// The addresses that some octets are, four to each.
pub open spec fn addresses_in(data: Seq<u8>) -> Seq<Ipv4Addr> {
    Seq::new(
        data.len() / 4,
        |i: int|
            Ipv4Addr {
                a: data[4 * i],
                b: data[4 * i + 1],
                c: data[4 * i + 2],
                d: data[4 * i + 3],
            },
    )
}

/// The advertisement that a packet is: of version 3 and of that type, of the
/// length that its count of addresses makes, and with a right checksum.
pub open spec fn advertisement_in(data: Seq<u8>) -> Option<AdvertisementView> {
    if data.len() >= 8 && data[0] == 0x31 && data.len() == 8 + 4 * data[3] && checksum_of(data)
        == 0 {
        Some(
            AdvertisementView {
                vrid: data[1],
                priority: data[2],
                advert_interval_centis: ((data[4] as int % 16) * 256 + data[5]) as u16,
                vips: addresses_in(data.skip(8)),
            },
        )
    } else {
        None
    }
}

/// Reads an advertisement.
pub fn parse_advertisement(data: &[u8]) -> (r: Option<Advertisement>)
    ensures
        match r {
            Some(ad) => advertisement_in(data@) == Some(ad@),
            None => advertisement_in(data@) is None,
        },
        r is Some <==> data@.len() >= 8 && data@[0] == 0x31 && data@.len() == 8 + 4 * data@[3]
            && checksum_of(data@) == 0,
        r matches Some(ad) ==> {
            &&& ad.vrid == data@[1]
            &&& ad.priority == data@[2]
            &&& ad.advert_interval_centis == (data@[4] as int % 16) * 256 + data@[5]
            &&& ad.vips@.len() == data@[3]
            &&& forall|i: int|
                #![trigger ad.vips@[i]]
                0 <= i < data@[3] ==> ad.vips@[i].a == data@[8 + 4 * i] && ad.vips@[i].b
                    == data@[9 + 4 * i] && ad.vips@[i].c == data@[10 + 4 * i] && ad.vips@[i].d
                    == data@[11 + 4 * i]
        },
{
    if data.len() < 8 || data[0] != 0x31 || data.len() != 8 + 4 * data[3] as usize
        || ones_complement_checksum(data) != 0 {
        return None;
    }
    let n: usize = data[3] as usize;
    let mut vips: Vec<Ipv4Addr> = Vec::new();
    let ghost all = addresses_in(data@.skip(8));
    let mut i: usize = 0;
    while i < n
        invariant
            i <= n <= 255,
            data@.len() == 8 + 4 * n,
            vips@.len() == i,
            all == addresses_in(data@.skip(8)),
            all.len() == n,
            forall|k: int| 0 <= k < i ==> vips@[k] == all[k],
        decreases n - i,
    {
        let at: usize = 8 + 4 * i;
        vips.push(Ipv4Addr { a: data[at], b: data[at + 1], c: data[at + 2], d: data[at + 3] });
        i += 1;
    }
    assert(vips@ =~= all);
    Some(
        Advertisement {
            vrid: data[1],
            priority: data[2],
            advert_interval_centis: (data[4] % 16) as u16 * 256 + data[5] as u16,
            vips,
        },
    )
}

// ---------------------------------------------------------------------------
// Laws
// ---------------------------------------------------------------------------

/// The sum of a packet is that of its header's words and of its addresses.
proof fn lemma_packet_sum(
    vrid: u8,
    priority: u8,
    advert: u16,
    vips: Seq<Ipv4Addr>,
    checksum: int,
)
    requires
        0 <= checksum <= 65535,
    ensures
        word_sum(packet_with(vrid, priority, advert, vips, checksum)) == 0x31 * 256 + vrid
            + priority * 256 + (vips.len() % 256) + (advert as int % 4096) + checksum + word_sum(
            octets_of(vips),
        ),
{
    let p = packet_with(vrid, priority, advert, vips, checksum);
    let p2 = p.skip(2);
    let p4 = p2.skip(2);
    let p6 = p4.skip(2);
    assert(p6.skip(2) =~= octets_of(vips));
    assert(p2[0] == priority && p2[1] == (vips.len() % 256) as u8);
    assert(word_sum(p) == 0x31 * 256 + vrid + word_sum(p2));
    assert(word_sum(p2) == priority * 256 + (vips.len() % 256) + word_sum(p4));
    assert(word_sum(p4) == high(advert as int % 4096) * 256 + low(advert as int % 4096) + word_sum(
        p6,
    ));
    assert(word_sum(p6) == high(checksum) * 256 + low(checksum) + word_sum(p6.skip(2)));
}

/// An encoded advertisement has a right checksum: over the whole packet it
/// comes to zero.
pub proof fn encoded_checksum_is_zero(
    vrid: u8,
    priority: u8,
    advert_interval_centis: u16,
    vips: Seq<Ipv4Addr>,
)
    ensures
        checksum_of(packet_of(vrid, priority, advert_interval_centis, vips)) == 0,
{
    let bare = packet_with(vrid, priority, advert_interval_centis, vips, 0);
    let ck = checksum_of(bare) as int;
    let s = word_sum(bare) as int;
    lemma_packet_sum(vrid, priority, advert_interval_centis, vips, 0);
    lemma_packet_sum(vrid, priority, advert_interval_centis, vips, ck);
    assert(s >= 0x31 * 256);
    assert(word_sum(packet_of(vrid, priority, advert_interval_centis, vips)) == s + ck);
    assert((s + ck) % 65535 == 0);
    assert((s + ck - 1) % 65535 == 65534);
}

proof fn lemma_octets(vips: Seq<Ipv4Addr>)
    ensures
        octets_of(vips).len() == 4 * vips.len(),
        addresses_in(octets_of(vips)) == vips,
    decreases vips.len(),
{
    if vips.len() > 0 {
        let t = vips.drop_last();
        lemma_octets(t);
        let o = octets_of(vips);
        assert forall|i: int| 0 <= i < vips.len() implies addresses_in(o)[i] == vips[i] by {
            if i < t.len() {
                assert(addresses_in(octets_of(t))[i] == t[i]);
                assert(o[4 * i] == octets_of(t)[4 * i]);
                assert(o[4 * i + 1] == octets_of(t)[4 * i + 1]);
                assert(o[4 * i + 2] == octets_of(t)[4 * i + 2]);
                assert(o[4 * i + 3] == octets_of(t)[4 * i + 3]);
            } else {
                let b = vips.last().bytes();
                assert(o[4 * i] == b[0]);
                assert(o[4 * i + 1] == b[1]);
                assert(o[4 * i + 2] == b[2]);
                assert(o[4 * i + 3] == b[3]);
            }
        }
    }
    assert(addresses_in(octets_of(vips)) =~= vips);
}

/// What was encoded is read back, where the count of addresses fits its byte
/// and the interval its twelve bits.
pub proof fn advertisements_read_back(
    vrid: u8,
    priority: u8,
    advert_interval_centis: u16,
    vips: Seq<Ipv4Addr>,
)
    requires
        vips.len() < 256,
        advert_interval_centis < 4096,
    ensures
        advertisement_in(packet_of(vrid, priority, advert_interval_centis, vips)) == Some(
            AdvertisementView { vrid, priority, advert_interval_centis, vips },
        ),
{
    let p = packet_of(vrid, priority, advert_interval_centis, vips);
    encoded_checksum_is_zero(vrid, priority, advert_interval_centis, vips);
    lemma_octets(vips);
    assert(p.skip(8) =~= octets_of(vips));
}

/// Two Masters that hear each other never both go on, and never both give
/// way: of two routers at different addresses, exactly one outranks the
/// other.
pub proof fn exactly_one_master_stays(p: u8, a: Ipv4Addr, q: u8, b: Ipv4Addr)
    requires
        a != b,
    ensures
        outranks(p, a, q, b) != outranks(q, b, p, a),
{
    if a.number() == b.number() {
        crate::net::number_tells_addresses_apart(a, b);
    }
}

/// No router outranks itself, so a Master is not moved by its own packets.
pub proof fn no_master_yields_to_itself(p: u8, a: Ipv4Addr)
    ensures
        !outranks(p, a, p, a),
{
}

/// Rank carries over: who outranks a router outranks all that it outranks.
pub proof fn rank_is_transitive(p: u8, a: Ipv4Addr, q: u8, b: Ipv4Addr, r: u8, c: Ipv4Addr)
    requires
        outranks(p, a, q, b),
        outranks(q, b, r, c),
    ensures
        outranks(p, a, r, c),
{
}

/// The master-down time lies between three and four advertisement intervals,
/// and a higher priority never waits longer.
pub proof fn higher_priority_takes_over_first(advert: int, p: int, q: int)
    requires
        0 <= advert,
        0 <= p <= q <= 255,
    ensures
        3 * advert <= master_down(advert, q) <= master_down(advert, p) <= 4 * advert,
{
    assert(0 <= (256 - q) * advert <= (256 - p) * advert <= 256 * advert) by (nonlinear_arith)
        requires
            0 <= advert,
            0 <= p <= q <= 255,
    ;
}

/// Where a packet has what (RFC 5798, 5.1): version 3 and type 1 in octet 0,
/// the virtual router in octet 1, the priority in octet 2, the count of
/// addresses in octet 3, the interval in the low twelve bits of octets 4 and
/// 5, the checksum in octets 6 and 7, and from octet 8 on four octets of each
/// address. The checksum is that of the packet with zeros in its place.
pub proof fn advertisements_have_their_fields_in_place(
    vrid: u8,
    priority: u8,
    advert_interval_centis: u16,
    vips: Seq<Ipv4Addr>,
)
    ensures
        ({
            let p = packet_of(vrid, priority, advert_interval_centis, vips);
            &&& p.len() == 8 + 4 * vips.len()
            &&& p[0] == 0x31
            &&& p[1] == vrid
            &&& p[2] == priority
            &&& p[3] == vips.len() % 256
            &&& p[4] < 16
            &&& p[4] as int * 256 + p[5] as int == advert_interval_centis as int % 4096
            &&& p[6] as int * 256 + p[7] as int == checksum_of(p.update(6, 0).update(7, 0))
            &&& forall|i: int|
                #![trigger vips[i]]
                0 <= i < vips.len() ==> p[8 + 4 * i] == vips[i].a && p[9 + 4 * i] == vips[i].b
                    && p[10 + 4 * i] == vips[i].c && p[11 + 4 * i] == vips[i].d
        }),
{
    let p = packet_of(vrid, priority, advert_interval_centis, vips);
    let bare = packet_with(vrid, priority, advert_interval_centis, vips, 0);
    lemma_octets(vips);
    assert(p.update(6, 0).update(7, 0) =~= bare);
    assert forall|i: int| #![trigger vips[i]] 0 <= i < vips.len() implies p[8 + 4 * i] == vips[i].a
        && p[9 + 4 * i] == vips[i].b && p[10 + 4 * i] == vips[i].c && p[11 + 4 * i] == vips[i].d by {
        let o = octets_of(vips);
        assert(addresses_in(o)[i] == vips[i]);
        assert(p[8 + 4 * i] == o[4 * i]);
        assert(p[9 + 4 * i] == o[4 * i + 1]);
        assert(p[10 + 4 * i] == o[4 * i + 2]);
        assert(p[11 + 4 * i] == o[4 * i + 3]);
    }
}

/// Which packets are advertisements, and what they say, octet by octet.
pub proof fn advertisements_are_read_by_their_octets(data: Seq<u8>)
    ensures
        advertisement_in(data) is Some <==> data.len() >= 8 && data[0] == 0x31 && data.len() == 8
            + 4 * data[3] && checksum_of(data) == 0,
        advertisement_in(data) matches Some(ad) ==> {
            &&& ad.vrid == data[1]
            &&& ad.priority == data[2]
            &&& ad.advert_interval_centis == (data[4] as int % 16) * 256 + data[5]
            &&& ad.vips.len() == data[3]
            &&& forall|i: int|
                #![trigger ad.vips[i]]
                0 <= i < data[3] ==> ad.vips[i] == (Ipv4Addr {
                    a: data[8 + 4 * i],
                    b: data[9 + 4 * i],
                    c: data[10 + 4 * i],
                    d: data[11 + 4 * i],
                })
        },
{
}

/// The sum of 16-bit words is taken two octets at a time, the first of them
/// being the high half; an octet that is left over is a high half.
pub proof fn words_are_summed_big_end_first(data: Seq<u8>, h: u8, l: u8)
    requires
        data.len() % 2 == 0,
    ensures
        word_sum(Seq::<u8>::empty()) == 0,
        word_sum(data.push(h)) == word_sum(data) + h as nat * 256,
        word_sum(data.push(h).push(l)) == word_sum(data) + h as nat * 256 + l as nat,
    decreases data.len(),
{
    if data.len() == 0 {
        assert(data.push(h).push(l).skip(2) =~= Seq::<u8>::empty());
        reveal_with_fuel(word_sum, 2);
    } else {
        let t = data.skip(2);
        words_are_summed_big_end_first(t, h, l);
        assert(data.push(h).skip(2) =~= t.push(h));
        assert(data.push(h).push(l).skip(2) =~= t.push(h).push(l));
    }
}

/// A checksum completes the sum of the words to a multiple of 65535, which is
/// zero in one's complement; it is all ones only for a sum of zero.
pub proof fn checksums_complete_the_sum(data: Seq<u8>)
    ensures
        0 <= checksum_of(data) <= 65535,
        (word_sum(data) + checksum_of(data)) % 65535 == 0,
        checksum_of(data) == 65535 <==> word_sum(data) == 0,
{
}

/// The rank of a router: a higher priority outranks a lower one wherever they
/// are; of equal priorities the higher address does.
pub proof fn priority_ranks_before_the_address(p: u8, a: Ipv4Addr, q: u8, b: Ipv4Addr)
    ensures
        p > q ==> outranks(p, a, q, b),
        p < q ==> !outranks(p, a, q, b),
        p == q ==> outranks(p, a, q, b) == (a.a > b.a || (a.a == b.a && (a.b > b.b || (a.b == b.b
            && (a.c > b.c || (a.c == b.c && a.d > b.d)))))),
{
    crate::net::addresses_are_ordered_from_their_first_octet(a, b);
    crate::net::addresses_are_ordered_from_their_first_octet(b, a);
}

/// The master-down time is three intervals and a skew, which is the share of
/// an interval that 256 less the priority is of 256, rounded down.
pub proof fn the_master_down_time_is_skewed(advert: int, p: int)
    requires
        0 <= advert,
        0 <= p <= 255,
    ensures
        ({
            let skew = master_down(advert, p) - 3 * advert;
            256 * skew <= (256 - p) * advert < 256 * skew + 256
        }),
{
    let m = (256 - p) * advert;
    assert(0 <= m) by (nonlinear_arith)
        requires
            m == (256 - p) * advert,
            0 <= advert,
            p <= 255,
    ;
}

/// A node takes the VIP exactly when it becomes Master, and gives it back
/// exactly when it stops being Master: whatever happens, after it this node
/// holds the VIP if and only if it is Master.
pub proof fn the_vip_is_held_by_the_master(
    v: VirtualRouter,
    idle: u32,
    packet: Seq<u8>,
    peer: Ipv4Addr,
    ours: Ipv4Addr,
)
    ensures
        v.state != State::Master ==> (v.start_step().0 == Action::Claim <==> v.start_step().1
            == State::Master),
        v.start_step().1 == State::Master <==> v.priority == 255,
        v.start_step().1 != State::Initialize,
        v.timer_step(idle).0 == Action::Claim <==> v.state != State::Master && v.timer_step(idle).1
            == State::Master,
        v.timer_step(idle).0 != Action::Release && (v.state == State::Master ==> v.timer_step(
            idle,
        ).1 == State::Master),
        v.packet_step(packet, peer, ours).0 == Action::Release <==> v.state == State::Master
            && v.packet_step(packet, peer, ours).1 != State::Master,
        v.packet_step(packet, peer, ours).0 != Action::Claim && (v.state != State::Master
            ==> v.packet_step(packet, peer, ours).1 == v.state),
{
}

/// The timer: a Master advertises once its interval has passed, and not
/// before; a Backup takes over once three intervals and its skew have passed,
/// and not before; nothing else happens.
pub proof fn the_timer_waits_for_its_time(v: VirtualRouter, idle: u32)
    ensures
        v.timer_step(idle).0 == Action::Advertise <==> v.state == State::Master && idle
            >= v.advert_interval_centis,
        v.timer_step(idle).0 == Action::Claim <==> v.state == State::Backup && 256 * (idle - 3
            * v.advert_interval_centis + 1) > (256 - v.priority) * v.advert_interval_centis,
{
    let advert = v.advert_interval_centis as int;
    let p = v.priority as int;
    the_master_down_time_is_skewed(advert, p);
    let skew = master_down(advert, p) - 3 * advert;
    let m = (256 - p) * advert;
    assert(256 * skew <= m < 256 * skew + 256);
    let late = idle - 3 * advert;
    if late >= skew {
        assert(256 * (late + 1) >= 256 * skew + 256);
    } else {
        assert(256 * (late + 1) <= 256 * skew);
    }
}

/// A packet: only an advertisement for this virtual router counts. It makes a
/// Backup wait anew, whatever its priority, and a Master give way exactly
/// where it outranks it.
pub proof fn advertisements_move_whom_they_concern(
    v: VirtualRouter,
    packet: Seq<u8>,
    peer: Ipv4Addr,
    ours: Ipv4Addr,
)
    ensures
        v.packet_step(packet, peer, ours).0 == Action::Restart <==> v.state == State::Backup
            && advertisement_in(packet) is Some && packet[1] == v.vrid,
        v.packet_step(packet, peer, ours).0 == Action::Release <==> v.state == State::Master
            && advertisement_in(packet) is Some && packet[1] == v.vrid && (packet[2] > v.priority
            || packet[2] == v.priority && peer.number() > ours.number()),
{
    advertisements_are_read_by_their_octets(packet);
}

/// An interval is what is configured, from one second to 655; none is a
/// second, and a longer one is what sixteen bits hold.
pub proof fn intervals_are_hundredths_of_a_second(secs: nat)
    ensures
        1 <= secs <= 655 ==> interval_of(secs) == 100 * secs,
        secs == 0 ==> interval_of(secs) == 100,
        secs > 655 ==> interval_of(secs) == 65535,
        100 <= interval_of(secs) <= 65535,
{
}

/// Only a Backup takes over when the Master falls silent, and only a Master
/// gives way: to a higher priority, or to the same one from a higher address.
pub proof fn backups_take_over_and_masters_give_way(
    state: State,
    priority: u8,
    addr: Ipv4Addr,
    peer_priority: u8,
    peer_addr: Ipv4Addr,
)
    ensures
        takes_over(state) <==> state == State::Backup,
        state != State::Master ==> !gives_way(state, priority, addr, peer_priority, peer_addr),
        state == State::Master && peer_priority > priority ==> gives_way(
            state,
            priority,
            addr,
            peer_priority,
            peer_addr,
        ),
        state == State::Master && peer_priority < priority ==> !gives_way(
            state,
            priority,
            addr,
            peer_priority,
            peer_addr,
        ),
        state == State::Master && peer_priority == priority ==> (gives_way(
            state,
            priority,
            addr,
            peer_priority,
            peer_addr,
        ) <==> peer_addr.number() > addr.number()),
{
}

} // verus!
