//! IPv4 addresses, and how addresses of either kind are written.

use crate::text;
use vstd::prelude::*;
use vstd::slice::slice_subrange;

verus! {

/// An IPv4 address, by its four octets.
#[derive(Debug, Clone, Copy, PartialEq, Eq, Structural)]
pub struct Ipv4Addr {
    pub a: u8,
    pub b: u8,
    pub c: u8,
    pub d: u8,
}

impl Ipv4Addr {
    /// The address as the number that orders addresses.
    pub open spec fn number(self) -> int {
        self.a * 0x1000000 + self.b * 0x10000 + self.c * 0x100 + self.d
    }

    /// The octets, first one first.
    pub open spec fn bytes(self) -> Seq<u8> {
        seq![self.a, self.b, self.c, self.d]
    }

    pub fn new(a: u8, b: u8, c: u8, d: u8) -> (r: Ipv4Addr)
        ensures
            r == (Ipv4Addr { a, b, c, d }),
    {
        Ipv4Addr { a, b, c, d }
    }

    /// The octets, first one first.
    pub fn octets(&self) -> (r: [u8; 4])
        ensures
            r@ == self.bytes(),
    {
        let r = [self.a, self.b, self.c, self.d];
        assert(r@ =~= self.bytes());
        r
    }

    /// Whether this address is the higher of the two.
    pub fn above(&self, other: &Ipv4Addr) -> (r: bool)
        ensures
            r == (self.number() > other.number()),
    {
        if self.a != other.a {
            self.a > other.a
        } else if self.b != other.b {
            self.b > other.b
        } else if self.c != other.c {
            self.c > other.c
        } else {
            self.d > other.d
        }
    }

    /// The address that a text writes: four octets in decimal, without
    /// leading zeros, with dots between.
    pub fn parse(s: &str) -> (r: Option<Ipv4Addr>)
        ensures
            r == address_of(s@),
    {
        let v = text::chars_of(s);
        let w = v.as_slice();
        let i = text::position(w, '.');
        if i == w.len() {
            return None;
        }
        let x = slice_subrange(w, i + 1, w.len());
        assert(x@ =~= after_dot(w@));
        let j = text::position(x, '.');
        if j == x.len() {
            return None;
        }
        let y = slice_subrange(x, j + 1, x.len());
        assert(y@ =~= after_dot(x@));
        let k = text::position(y, '.');
        if k == y.len() {
            return None;
        }
        let z = slice_subrange(y, k + 1, y.len());
        assert(z@ =~= after_dot(y@));
        let p = slice_subrange(w, 0, i);
        let q = slice_subrange(x, 0, j);
        let t = slice_subrange(y, 0, k);
        assert(p@ =~= w@.take(i as int));
        assert(q@ =~= x@.take(j as int));
        assert(t@ =~= y@.take(k as int));
        match (parse_octet(p), parse_octet(q), parse_octet(t), parse_octet(z)) {
            (Some(a), Some(b), Some(c), Some(d)) => Some(Ipv4Addr { a, b, c, d }),
            _ => None,
        }
    }

    /// The address as a text.
    pub fn text(&self) -> (r: String)
        ensures
            r@ == address_text(*self),
    {
        text::decimal_text(self.a as u128).concat(".").concat(
            text::decimal_text(self.b as u128).as_str(),
        ).concat(".").concat(text::decimal_text(self.c as u128).as_str()).concat(".").concat(
            text::decimal_text(self.d as u128).as_str(),
        )
    }
}

/// The octet that a text writes.
pub open spec fn octet_of(s: Seq<char>) -> Option<u8> {
    if 1 <= s.len() <= 3 && text::all_digits(s) && (s.len() > 1 ==> s[0] != '0') && text::value(s)
        <= 255 {
        Some(text::value(s) as u8)
    } else {
        None
    }
}

/// What stands after the first dot.
pub open spec fn after_dot(s: Seq<char>) -> Seq<char> {
    s.skip(text::find(s, '.') as int + 1)
}

/// What stands before the first dot.
pub open spec fn before_dot(s: Seq<char>) -> Seq<char> {
    s.take(text::find(s, '.') as int)
}

/// Whether there is a dot.
pub open spec fn dotted(s: Seq<char>) -> bool {
    text::find(s, '.') < s.len()
}

/// The address that a text writes.
pub open spec fn address_of(s: Seq<char>) -> Option<Ipv4Addr> {
    let x = after_dot(s);
    let y = after_dot(x);
    if dotted(s) && dotted(x) && dotted(y) {
        match (
            octet_of(before_dot(s)),
            octet_of(before_dot(x)),
            octet_of(before_dot(y)),
            octet_of(after_dot(y)),
        ) {
            (Some(a), Some(b), Some(c), Some(d)) => Some(Ipv4Addr { a, b, c, d }),
            _ => None,
        }
    } else {
        None
    }
}

/// The text of an address.
pub open spec fn address_text(ip: Ipv4Addr) -> Seq<char> {
    text::decimal(ip.a as nat) + "."@ + text::decimal(ip.b as nat) + "."@ + text::decimal(
        ip.c as nat,
    ) + "."@ + text::decimal(ip.d as nat)
}

/// The octet that `s` writes.
fn parse_octet(s: &[char]) -> (r: Option<u8>)
    ensures
        r == octet_of(s@),
{
    if s.len() < 1 || s.len() > 3 || (s.len() > 1 && s[0] == '0') {
        return None;
    }
    if s[0] == '+' {
        assert(!text::is_digit(s@[0]));
        return None;
    }
    match text::parse_number(s, 255) {
        Some(n) => Some(n as u8),
        None => None,
    }
}

// ---------------------------------------------------------------------------
// IPv6 addresses
// ---------------------------------------------------------------------------

/// The hexadecimal digits.
pub open spec fn is_hex(c: char) -> bool {
    ||| text::is_digit(c)
    ||| 'a' <= c <= 'f'
    ||| 'A' <= c <= 'F'
}

/// A group of an IPv6 address: one to four hexadecimal digits.
pub open spec fn is_group(s: Seq<char>) -> bool {
    1 <= s.len() <= 4 && forall|i: int| 0 <= i < s.len() ==> is_hex(#[trigger] s[i])
}

/// How many groups a text writes, one or more with colons between; nothing
/// where it does not write groups. Where `dots` says so the last of them may
/// be written as an IPv4 address, which is two.
pub open spec fn groups_of(s: Seq<char>, dots: bool) -> Option<nat>
    decreases s.len(),
{
    let i = text::find(s, ':') as int;
    if i >= s.len() {
        if is_group(s) {
            Some(1)
        } else if dots && address_of(s) is Some {
            Some(2)
        } else {
            None
        }
    } else if is_group(s.take(i)) {
        match groups_of(s.skip(i + 1), dots) {
            Some(n) => Some(n + 1),
            None => None,
        }
    } else {
        None
    }
}

/// How many groups stand on one side of `::`: none is fine there.
pub open spec fn side_of(s: Seq<char>, dots: bool) -> Option<nat> {
    if s.len() == 0 {
        Some(0)
    } else {
        groups_of(s, dots)
    }
}

/// Whether a text writes an IPv6 address: eight groups, or fewer with `::`
/// once in place of the rest, which are zero.
pub open spec fn is_ipv6(s: Seq<char>) -> bool {
    match text::find_from(s, seq![':', ':'], 0) {
        None => groups_of(s, true) == Some(8nat),
        Some(k) => match (side_of(s.take(k), false), side_of(s.skip(k + 2), true)) {
            (Some(a), Some(b)) => a + b <= 7,
            _ => false,
        },
    }
}

/// Whether a text writes an IPv6 address in brackets, with or without the
/// number of a zone behind `%`.
pub open spec fn is_bracketed(s: Seq<char>) -> bool {
    let t = s.subrange(1, s.len() - 1);
    let p = text::find(t, '%') as int;
    &&& s.len() >= 2
    &&& s[0] == '['
    &&& s.last() == ']'
    &&& is_ipv6(t.take(p))
    &&& p < t.len() ==> is_zone(t.skip(p + 1))
}

/// The number of a zone: decimal digits, 32 bits.
pub open spec fn is_zone(s: Seq<char>) -> bool {
    s.len() > 0 && text::all_digits(s) && text::value(s) <= u32::MAX
}

/// Whether a text is one group.
fn group(s: &[char]) -> (r: bool)
    ensures
        r == is_group(s@),
{
    if s.len() < 1 || s.len() > 4 {
        return false;
    }
    let mut i: usize = 0;
    while i < s.len()
        invariant
            i <= s@.len(),
            forall|j: int| 0 <= j < i ==> is_hex(#[trigger] s@[j]),
        decreases s.len() - i,
    {
        let c = s[i];
        if !(text::digit(c) || ('a' <= c && c <= 'f') || ('A' <= c && c <= 'F')) {
            assert(!is_hex(s@[i as int]));
            return false;
        }
        i += 1;
    }
    true
}

/// How many groups a text writes.
fn count_groups(s: &[char], dots: bool) -> (r: Option<usize>)
    ensures
        match r {
            Some(n) => groups_of(s@, dots) == Some(n as nat),
            None => groups_of(s@, dots) is None,
        },
{
    let mut from: usize = 0;
    let mut n: usize = 0;
    assert(s@.skip(0) =~= s@);
    loop
        invariant
            n <= from <= s@.len(),
            groups_of(s@, dots) == (match groups_of(s@.skip(from as int), dots) {
                Some(m) => Some((n + m) as nat),
                None => None,
            }),
        decreases s.len() - from,
    {
        let t = slice_subrange(s, from, s.len());
        assert(t@ =~= s@.skip(from as int));
        let i = text::position(t, ':');
        if i == t.len() {
            if group(t) {
                return Some(n + 1);
            }
            if dots && Ipv4Addr::parse(text::text_of(t).as_str()).is_some() {
                proof {
                    text::lemma_find(t@, '.');
                    text::lemma_find(after_dot(t@), '.');
                    assert(t@.len() >= 2);
                }
                return Some(n + 2);
            }
            return None;
        }
        let first = slice_subrange(t, 0, i);
        assert(first@ =~= t@.take(i as int));
        if !group(first) {
            return None;
        }
        assert(t@.skip(i + 1) =~= s@.skip(from + i + 1));
        from = from + i + 1;
        n += 1;
    }
}

/// How many groups stand on one side of `::`.
fn count_side(s: &[char], dots: bool) -> (r: Option<usize>)
    ensures
        match r {
            Some(n) => side_of(s@, dots) == Some(n as nat),
            None => side_of(s@, dots) is None,
        },
{
    if s.len() == 0 {
        Some(0)
    } else {
        count_groups(s, dots)
    }
}

/// Where `::` first stands.
fn gap(s: &[char]) -> (r: Option<usize>)
    ensures
        match r {
            Some(k) => text::find_from(s@, seq![':', ':'], 0) == Some(k as int) && k + 2 <= s@.len(),
            None => text::find_from(s@, seq![':', ':'], 0) is None,
        },
{
    let ghost p = seq![':', ':'];
    let mut i: usize = 0;
    while i < s.len() && s.len() - i >= 2
        invariant
            i <= s@.len(),
            p == seq![':', ':'],
            text::find_from(s@, p, 0) == text::find_from(s@, p, i as int),
        decreases s.len() - i,
    {
        let ghost here = s@.subrange(i as int, i + 2);
        if s[i] == ':' && s[i + 1] == ':' {
            assert(here =~= p);
            return Some(i);
        }
        assert(here[0] == s@[i as int] && here[1] == s@[i + 1]);
        assert(p[0] == ':' && p[1] == ':');
        i += 1;
    }
    None
}

/// Whether a text writes an IPv6 address.
fn ipv6(s: &[char]) -> (r: bool)
    ensures
        r == is_ipv6(s@),
{
    match gap(s) {
        None => match count_groups(s, true) {
            Some(n) => n == 8,
            None => false,
        },
        Some(k) => {
            let head = slice_subrange(s, 0, k);
            assert(k + 2 <= s.len());
            let tail = slice_subrange(s, k + 2, s.len());
            assert(head@ =~= s@.take(k as int));
            assert(tail@ =~= s@.skip(k + 2));
            match (count_side(head, false), count_side(tail, true)) {
                (Some(a), Some(b)) => a <= 7 && b <= 7 - a,
                _ => false,
            }
        },
    }
}

/// Whether a text writes an IPv6 address in brackets.
fn bracketed(s: &[char]) -> (r: bool)
    ensures
        r == is_bracketed(s@),
{
    if s.len() < 2 || s[0] != '[' || s[s.len() - 1] != ']' {
        return false;
    }
    let t = slice_subrange(s, 1, s.len() - 1);
    let p = text::position(t, '%');
    let ip = slice_subrange(t, 0, p);
    assert(ip@ =~= t@.take(p as int));
    if !ipv6(ip) {
        return false;
    }
    if p == t.len() {
        return true;
    }
    let zone = slice_subrange(t, p + 1, t.len());
    assert(zone@ =~= t@.skip(p + 1));
    if zone.len() > 0 && zone[0] == '+' {
        assert(!text::is_digit(zone@[0]));
        return false;
    }
    text::parse_number(zone, 0xffff_ffff).is_some()
}

/// What an IP literal with a port is as the text of a socket address; nothing
/// where the text is no IP literal. An IPv6 address may stand in brackets
/// already.
pub open spec fn socket_text(host: Seq<char>, port: u16) -> Option<Seq<char>> {
    if address_of(host) is Some || is_bracketed(host) {
        Some(host + ":"@ + text::decimal(port as nat))
    } else if is_ipv6(host) {
        Some("["@ + host + "]:"@ + text::decimal(port as nat))
    } else {
        None
    }
}

/// The text of the socket address of an IP literal and a port.
pub fn socket(host: &str, port: u16) -> (r: Option<String>)
    ensures
        text::opt_string(r) == socket_text(host@, port),
{
    let h = text::chars_of(host);
    let p = text::decimal_text(port as u128);
    if Ipv4Addr::parse(host).is_some() || bracketed(h.as_slice()) {
        Some(String::from_str(host).concat(":").concat(p.as_str()))
    } else if ipv6(h.as_slice()) {
        Some(String::from_str("[").concat(host).concat("]:").concat(p.as_str()))
    } else {
        None
    }
}

// ---------------------------------------------------------------------------
// Laws
// ---------------------------------------------------------------------------

/// An IPv4 address is written in digits and dots.
proof fn lemma_address_chars(s: Seq<char>, i: int)
    requires
        address_of(s) is Some,
        0 <= i < s.len(),
    ensures
        text::is_digit(s[i]) || s[i] == '.',
{
    let x = after_dot(s);
    let y = after_dot(x);
    let a = text::find(s, '.') as int;
    let b = text::find(x, '.') as int;
    let c = text::find(y, '.') as int;
    text::lemma_find(s, '.');
    text::lemma_find(x, '.');
    text::lemma_find(y, '.');
    if i < a {
        assert(before_dot(s)[i] == s[i]);
    } else if i > a {
        let j = i - a - 1;
        assert(x[j] == s[i]);
        if j < b {
            assert(before_dot(x)[j] == x[j]);
        } else if j > b {
            let k = j - b - 1;
            assert(y[k] == x[j]);
            if k < c {
                assert(before_dot(y)[k] == y[k]);
            } else if k > c {
                assert(after_dot(y)[k - c - 1] == y[k]);
            }
        }
    }
}

/// An IPv6 address is written with a colon.
proof fn lemma_ipv6_colon(s: Seq<char>)
    requires
        is_ipv6(s),
    ensures
        exists|i: int| 0 <= i < s.len() && #[trigger] s[i] == ':',
{
    let p = seq![':', ':'];
    text::lemma_find_from(s, p, 0);
    text::lemma_find(s, ':');
    match text::find_from(s, p, 0) {
        None => {
            let i = text::find(s, ':') as int;
            assert(i < s.len());
            assert(s[i] == ':');
        },
        Some(k) => {
            assert(s.subrange(k, k + 2)[0] == p[0]);
            assert(s[k] == ':');
        },
    }
}

/// A name is no address: a text without a colon in which something else than
/// digits and dots stands has no socket address, and neither has no text at
/// all.
pub proof fn names_have_no_socket_address(host: Seq<char>, port: u16, i: int)
    requires
        forall|k: int| 0 <= k < host.len() ==> #[trigger] host[k] != ':',
        host.len() == 0 || (0 <= i < host.len() && !text::is_digit(host[i]) && host[i] != '.'),
    ensures
        socket_text(host, port) is None,
{
    if address_of(host) is Some {
        text::lemma_find(host, '.');
        lemma_address_chars(host, i);
    }
    if is_ipv6(host) {
        lemma_ipv6_colon(host);
    }
    if is_bracketed(host) {
        let t = host.subrange(1, host.len() - 1);
        let p = text::find(t, '%') as int;
        text::lemma_find(t, '%');
        lemma_ipv6_colon(t.take(p));
        let k = choose|k: int| 0 <= k < t.take(p).len() && #[trigger] t.take(p)[k] == ':';
        assert(host[k + 1] == ':');
    }
}

/// Every IPv4 address has a socket address, as it is written.
pub proof fn addresses_have_a_socket_address(ip: Ipv4Addr, port: u16)
    ensures
        socket_text(address_text(ip), port) == Some(
            address_text(ip) + ":"@ + text::decimal(port as nat),
        ),
{
    addresses_read_back(ip);
}

/// Two addresses with one number are one address: of two different ones,
/// one is the higher.
pub proof fn number_tells_addresses_apart(p: Ipv4Addr, q: Ipv4Addr)
    requires
        p.number() == q.number(),
    ensures
        p == q,
{
    assert(p.number() / 0x1000000 == p.a && q.number() / 0x1000000 == q.a);
    assert(p.a == q.a);
    let m = p.number() - p.a * 0x1000000;
    let n = q.number() - q.a * 0x1000000;
    assert(m / 0x10000 == p.b && n / 0x10000 == q.b);
    assert(p.b == q.b);
    assert(p.c == q.c && p.d == q.d);
}

/// What `decimal` writes of an octet.
proof fn lemma_octet(n: u8)
    ensures
        octet_of(text::decimal(n as nat)) == Some(n),
        forall|i: int|
            0 <= i < text::decimal(n as nat).len() ==> text::decimal(n as nat)[i] != '.',
{
    let s = text::decimal(n as nat);
    text::lemma_decimal_reads_back(n as nat);
    reveal_with_fuel(text::decimal, 4);
    assert(1 <= s.len() <= 3);
    assert forall|i: int| 0 <= i < s.len() implies s[i] != '.' by {
        assert(text::is_digit(s[i]));
    }
}

/// Cutting at a dot: what stood before it and after it.
proof fn lemma_cut(p: Seq<char>, q: Seq<char>)
    requires
        forall|i: int| 0 <= i < p.len() ==> p[i] != '.',
    ensures
        dotted(p + "."@ + q),
        before_dot(p + "."@ + q) == p,
        after_dot(p + "."@ + q) == q,
{
    reveal_strlit(".");
    let s = p + "."@ + q;
    text::lemma_find_is(s, '.', p.len() as int);
    assert(before_dot(s) =~= p);
    assert(after_dot(s) =~= q);
}

/// An address that was written is read back.
pub proof fn addresses_read_back(ip: Ipv4Addr)
    ensures
        address_of(address_text(ip)) == Some(ip),
{
    let a = text::decimal(ip.a as nat);
    let b = text::decimal(ip.b as nat);
    let c = text::decimal(ip.c as nat);
    let d = text::decimal(ip.d as nat);
    lemma_octet(ip.a);
    lemma_octet(ip.b);
    lemma_octet(ip.c);
    lemma_octet(ip.d);
    lemma_cut(c, d);
    lemma_cut(b, c + "."@ + d);
    lemma_cut(a, b + "."@ + (c + "."@ + d));
    let e = "."@;
    assert(address_text(ip) == a + e + (b + e + (c + e + d))) by {
        lemma_regroup(a + e + b + e, c, e, d);
        lemma_regroup(a + e, b, e, c + e + d);
    }
}

/// `+` on texts groups either way.
proof fn lemma_regroup(p: Seq<char>, q: Seq<char>, r: Seq<char>, s: Seq<char>)
    ensures
        p + q + r + s == p + (q + r + s),
{
    assert(p + q + r + s =~= p + (q + r + s));
}

/// Addresses are ordered by their octets, the first one first: the higher of
/// two is the one with the higher octet where they first differ.
pub proof fn addresses_are_ordered_from_their_first_octet(p: Ipv4Addr, q: Ipv4Addr)
    ensures
        p.a > q.a ==> p.number() > q.number(),
        p.a == q.a && p.b > q.b ==> p.number() > q.number(),
        p.a == q.a && p.b == q.b && p.c > q.c ==> p.number() > q.number(),
        p.a == q.a && p.b == q.b && p.c == q.c && p.d > q.d ==> p.number() > q.number(),
        p.number() > q.number() ==> p != q && !(q.number() > p.number()),
{
}

/// The digits that write an octet are those that `decimal` writes of it.
proof fn lemma_octet_text(s: Seq<char>)
    requires
        octet_of(s) is Some,
    ensures
        s == text::decimal(octet_of(s)->0 as nat),
{
    let n = text::value(s);
    assert(text::is_digit(s[0]));
    reveal_with_fuel(text::value, 4);
    reveal_with_fuel(text::decimal, 4);
    if s.len() == 1 {
        assert(s.drop_last() =~= seq![]);
        assert(text::decimal(n) =~= s);
    } else if s.len() == 2 {
        assert(text::is_digit(s[1]));
        assert(s.drop_last().drop_last() =~= seq![]);
        assert(n == (s[0] as u32 - '0' as u32) * 10 + (s[1] as u32 - '0' as u32));
        assert(text::decimal(n) =~= s);
    } else {
        assert(text::is_digit(s[1]) && text::is_digit(s[2]));
        assert(s.drop_last().drop_last().drop_last() =~= seq![]);
        assert(s.drop_last()[1] == s[1] && s.drop_last().drop_last()[0] == s[0]);
        assert(n == ((s[0] as u32 - '0' as u32) * 10 + (s[1] as u32 - '0' as u32)) * 10 + (
        s[2] as u32 - '0' as u32));
        assert(text::decimal(n) =~= s);
    }
}

/// Where a text is cut at its first dot, the dot joins the two parts.
proof fn lemma_join(s: Seq<char>)
    requires
        dotted(s),
    ensures
        s == before_dot(s) + "."@ + after_dot(s),
{
    reveal_strlit(".");
    text::lemma_find(s, '.');
    assert(s =~= before_dot(s) + "."@ + after_dot(s));
}

/// An address is written in one way only: a text is read as an address
/// exactly where it is what is written of it.
pub proof fn an_address_has_one_text(s: Seq<char>, ip: Ipv4Addr)
    ensures
        address_of(s) == Some(ip) <==> s == text::decimal(ip.a as nat) + "."@ + text::decimal(
            ip.b as nat,
        ) + "."@ + text::decimal(ip.c as nat) + "."@ + text::decimal(ip.d as nat),
{
    addresses_read_back(ip);
    if address_of(s) == Some(ip) {
        let x = after_dot(s);
        let y = after_dot(x);
        lemma_join(s);
        lemma_join(x);
        lemma_join(y);
        lemma_octet_text(before_dot(s));
        lemma_octet_text(before_dot(x));
        lemma_octet_text(before_dot(y));
        lemma_octet_text(after_dot(y));
        let e = "."@;
        let a = text::decimal(ip.a as nat);
        let b = text::decimal(ip.b as nat);
        let c = text::decimal(ip.c as nat);
        let d = text::decimal(ip.d as nat);
        lemma_regroup(a + e + b + e, c, e, d);
        lemma_regroup(a + e, b, e, c + e + d);
    }
}

/// A group is one to four hexadecimal digits, in either case.
pub proof fn a_group_is_one_to_four_hex_digits(s: Seq<char>)
    ensures
        is_group(s) <==> 1 <= s.len() <= 4 && forall|i: int|
            0 <= i < s.len() ==> ('0' <= #[trigger] s[i] <= '9' || 'a' <= s[i] <= 'f' || 'A' <= s[i]
                <= 'F'),
{
    if is_group(s) {
        assert forall|i: int| 0 <= i < s.len() implies ('0' <= #[trigger] s[i] <= '9' || 'a' <= s[i]
            <= 'f' || 'A' <= s[i] <= 'F') by {
            assert(is_hex(s[i]));
        }
    }
}

/// Groups stand between colons and count one each; an IPv4 address may stand
/// for the last two, where that is allowed.
pub proof fn groups_stand_between_colons(g: Seq<char>, rest: Seq<char>, dots: bool)
    requires
        forall|i: int| 0 <= i < g.len() ==> #[trigger] g[i] != ':',
    ensures
        is_group(g) ==> groups_of(g, dots) == Some(1nat),
        !is_group(g) && dots && address_of(g) is Some ==> groups_of(g, dots) == Some(2nat),
        !is_group(g) && (!dots || address_of(g) is None) ==> groups_of(g, dots) is None,
        groups_of(g + seq![':'] + rest, dots) is Some <==> is_group(g) && groups_of(rest, dots) is Some,
        groups_of(g + seq![':'] + rest, dots) matches Some(n) ==> groups_of(rest, dots) == Some(
            (n - 1) as nat,
        ),
{
    let s = g + seq![':'] + rest;
    let n = g.len() as int;
    assert forall|i: int| 0 <= i < n implies s[i] != ':' by {
        assert(s[i] == g[i]);
    }
    assert(s[n] == ':');
    text::lemma_find_is(s, ':', n);
    text::lemma_find_is(g, ':', n);
    assert(s.take(n) =~= g);
    assert(s.skip(n + 1) =~= rest);
}

/// An IPv6 address without two colons in a row is eight groups. With them it
/// is no more than seven, over both sides of the first such place, and either
/// side may be empty; only the right side may end in an IPv4 address.
pub proof fn an_ipv6_address_has_eight_groups(a: Seq<char>, b: Seq<char>, s: Seq<char>)
    ensures
        (forall|j: int| 0 <= j < s.len() - 1 ==> !(#[trigger] s[j] == ':' && s[j + 1] == ':')) ==> (
        is_ipv6(s) <==> groups_of(s, true) == Some(8nat)),
        ({
            let t = a + seq![':', ':'] + b;
            (forall|j: int| 0 <= j < a.len() ==> !(#[trigger] t[j] == ':' && t[j + 1] == ':')) ==> (
            is_ipv6(t) <==> ({
                let x = if a.len() == 0 {
                    Some(0nat)
                } else {
                    groups_of(a, false)
                };
                let y = if b.len() == 0 {
                    Some(0nat)
                } else {
                    groups_of(b, true)
                };
                x is Some && y is Some && x->0 + y->0 <= 7
            }))
        }),
{
    let p = seq![':', ':'];
    let t = a + p + b;
    let n = a.len() as int;
    text::lemma_find_from(s, p, 0);
    text::lemma_find_from(t, p, 0);
    if forall|j: int| 0 <= j < s.len() - 1 ==> !(#[trigger] s[j] == ':' && s[j + 1] == ':') {
        if let Some(k) = text::find_from(s, p, 0) {
            assert(s.subrange(k, k + 2)[0] == p[0] && s.subrange(k, k + 2)[1] == p[1]);
            assert(s[k] == ':' && s[k + 1] == ':');
        }
    }
    if forall|j: int| 0 <= j < a.len() ==> !(#[trigger] t[j] == ':' && t[j + 1] == ':') {
        assert(t.subrange(n, n + 2) =~= p);
        assert(text::occurs_at(t, p, n));
        if let Some(k) = text::find_from(t, p, 0) {
            if k < n {
                assert(t.subrange(k, k + 2)[0] == p[0] && t.subrange(k, k + 2)[1] == p[1]);
                assert(t[k] == ':' && t[k + 1] == ':');
            }
            assert(k == n);
            assert(t.take(n) =~= a);
            assert(t.skip(n + 2) =~= b);
        }
    }
}

/// An address in brackets is an IPv6 address between them, with or without a
/// percent sign and the number of a zone behind it; without both brackets it
/// is none.
pub proof fn brackets_hold_an_ipv6_address(t: Seq<char>, zone: Seq<char>, s: Seq<char>)
    requires
        forall|i: int| 0 <= i < t.len() ==> #[trigger] t[i] != '%',
    ensures
        is_bracketed(seq!['['] + t + seq![']']) <==> is_ipv6(t),
        is_bracketed(seq!['['] + t + seq!['%'] + zone + seq![']']) <==> is_ipv6(t) && zone.len() > 0
            && text::all_digits(zone) && text::value(zone) <= 0xffff_ffff,
        s.len() < 2 || s[0] != '[' || s.last() != ']' ==> !is_bracketed(s),
{
    let x = seq!['['] + t + seq![']'];
    assert(x.subrange(1, x.len() - 1) =~= t);
    text::lemma_find_is(t, '%', t.len() as int);
    assert(t.take(t.len() as int) =~= t);
    let y = seq!['['] + t + seq!['%'] + zone + seq![']'];
    let u = t + seq!['%'] + zone;
    assert(y.subrange(1, y.len() - 1) =~= u);
    assert forall|i: int| 0 <= i < t.len() implies u[i] != '%' by {
        assert(u[i] == t[i]);
    }
    assert(u[t.len() as int] == '%');
    text::lemma_find_is(u, '%', t.len() as int);
    assert(u.take(t.len() as int) =~= t);
    assert(u.skip(t.len() as int + 1) =~= zone);
}

/// What has a socket address: an IPv4 address and an IPv6 address in brackets
/// as they stand, a bare IPv6 address between brackets, each with a colon and
/// the port behind; and nothing else.
pub proof fn literals_have_a_socket_address(host: Seq<char>, port: u16)
    ensures
        ({
            let p = text::decimal(port as nat);
            &&& socket_text(host, port) is Some <==> address_of(host) is Some || is_ipv6(host)
                || is_bracketed(host)
            &&& address_of(host) is Some || is_bracketed(host) ==> socket_text(host, port) == Some(
                host + ":"@ + p,
            )
            &&& is_ipv6(host) && !is_bracketed(host) && address_of(host) is None ==> socket_text(
                host,
                port,
            ) == Some("["@ + host + "]:"@ + p)
        }),
{
}

} // verus!
