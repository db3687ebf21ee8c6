//! IP addresses, socket addresses and networks, and how they are written.
use vstd::prelude::*;

use crate::number;
use crate::text;
use crate::text::CharClass;

verus! {

/// An IPv4 address; the first octet is the most significant one.
#[derive(Clone, Copy, Debug, PartialEq, Eq, Structural)]
pub struct Ipv4Addr {
    pub bits: u32,
}

/// An IPv6 address; the first group is the most significant one.
#[derive(Clone, Copy, Debug, PartialEq, Eq, Structural)]
pub struct Ipv6Addr {
    pub bits: u128,
}

#[derive(Clone, Copy, Debug, PartialEq, Eq, Structural)]
pub enum IpAddr {
    V4(Ipv4Addr),
    V6(Ipv6Addr),
}

/// An address and a port. `scope_id` is 0 but for an IPv6 address written
/// with a scope.
#[derive(Clone, Copy, Debug, PartialEq, Eq, Structural)]
pub struct SocketAddr {
    pub ip: IpAddr,
    pub port: u16,
    pub scope_id: u32,
}

/// The kind of address that a text fails to write.
#[derive(Clone, Copy, Debug, PartialEq, Eq, Structural)]
pub enum AddrParseError {
    Ip,
    Ipv4,
    Ipv6,
}

/// The words that tell of an error of this kind.
pub open spec fn addr_error_text(kind: AddrParseError) -> Seq<char> {
    match kind {
        AddrParseError::Ip => "invalid IP address syntax"@,
        AddrParseError::Ipv4 => "invalid IPv4 address syntax"@,
        AddrParseError::Ipv6 => "invalid IPv6 address syntax"@,
    }
}

impl AddrParseError {
    /// The words that tell of this error.
    pub fn message(&self) -> (r: String)
        ensures
            r@ == addr_error_text(*self),
    {
        match self {
            AddrParseError::Ip => "invalid IP address syntax".to_owned(),
            AddrParseError::Ipv4 => "invalid IPv4 address syntax".to_owned(),
            AddrParseError::Ipv6 => "invalid IPv6 address syntax".to_owned(),
        }
    }
}

/// The address whose octets are `a`, `b`, `c` and `d`.
pub open spec fn ipv4_of_octets(a: nat, b: nat, c: nat, d: nat) -> Ipv4Addr {
    Ipv4Addr { bits: (((a * 256 + b) * 256 + c) * 256 + d) as u32 }
}

impl Ipv4Addr {
    /// The address whose octets are `a`, `b`, `c` and `d`.
    pub fn new(a: u8, b: u8, c: u8, d: u8) -> (r: Ipv4Addr)
        ensures
            r == ipv4_of_octets(a as nat, b as nat, c as nat, d as nat),
    {
        let bits: u32 = ((a as u32 * 256 + b as u32) * 256 + c as u32) * 256 + d as u32;
        Ipv4Addr { bits }
    }
}

/// An octet in base 10: up to three digits, no leading zero.
pub open spec fn octet(s: Seq<char>) -> Option<nat> {
    if s.len() <= 3 && (s.len() > 1 ==> s[0] != '0') {
        number::numeral(s, 10, 255)
    } else {
        None
    }
}

/// The IPv4 address that `s` writes: four octets with dots between them.
pub open spec fn ipv4_text(s: Seq<char>) -> Option<Ipv4Addr> {
    let parts = text::split(s, CharClass::Is('.'));
    if parts.len() == 4 {
        match (octet(parts[0]), octet(parts[1]), octet(parts[2]), octet(parts[3])) {
            (Some(a), Some(b), Some(c), Some(d)) => Some(ipv4_of_octets(a, b, c, d)),
            _ => None,
        }
    } else {
        None
    }
}

/// A group of an IPv6 address: up to four digits of base 16.
pub open spec fn group(s: Seq<char>) -> Option<nat> {
    if s.len() <= 4 {
        number::numeral(s, 16, 0xffff)
    } else {
        None
    }
}

/// The groups that `parts` write, where every part writes one.
pub open spec fn groups(parts: Seq<Seq<char>>) -> Option<Seq<nat>>
    decreases parts.len(),
{
    if parts.len() == 0 {
        Some(Seq::empty())
    } else {
        match (groups(parts.drop_last()), group(parts.last())) {
            (Some(g), Some(v)) => Some(g.push(v)),
            _ => None,
        }
    }
}

/// The groups that `parts` write, where the last part may be an IPv4
/// address and then stands for two.
pub open spec fn groups_then_ipv4(parts: Seq<Seq<char>>) -> Option<Seq<nat>> {
    match groups(parts) {
        Some(g) => Some(g),
        None => match (groups(parts.drop_last()), ipv4_text(parts.last())) {
            (Some(g), Some(ip)) if parts.len() > 0 => Some(
                g.push((ip.bits / 65536) as nat).push((ip.bits % 65536) as nat),
            ),
            _ => None,
        },
    }
}

/// The groups of a side of `::`, which may be empty.
pub open spec fn head_groups(s: Seq<char>) -> Option<Seq<nat>> {
    if s.len() == 0 {
        Some(Seq::empty())
    } else {
        groups(text::split(s, CharClass::Is(':')))
    }
}

pub open spec fn tail_groups(s: Seq<char>) -> Option<Seq<nat>> {
    if s.len() == 0 {
        Some(Seq::empty())
    } else {
        groups_then_ipv4(text::split(s, CharClass::Is(':')))
    }
}

/// Where the first `::` at or behind `i` stands in `s`.
pub open spec fn gap_from(s: Seq<char>, i: int) -> Option<int>
    decreases s.len() - i,
{
    if i + 1 >= s.len() {
        None
    } else if s[i] == ':' && s[i + 1] == ':' {
        Some(i)
    } else {
        gap_from(s, i + 1)
    }
}

/// The number whose groups of 16 bits are `g`.
pub open spec fn groups_value(g: Seq<nat>) -> nat
    decreases g.len(),
{
    if g.len() == 0 {
        0
    } else {
        groups_value(g.drop_last()) * 65536 + g.last()
    }
}

pub open spec fn ipv6_of_groups(g: Seq<nat>) -> Ipv6Addr {
    Ipv6Addr { bits: groups_value(g) as u128 }
}

pub open spec fn zero_groups(n: nat) -> Seq<nat> {
    Seq::new(n, |i: int| 0nat)
}

/// The IPv6 address that `s` writes: eight groups with colons between them.
/// The last two may be written as an IPv4 address, and one run of zero
/// groups as `::`.
pub open spec fn ipv6_text(s: Seq<char>) -> Option<Ipv6Addr> {
    match gap_from(s, 0) {
        None => match groups_then_ipv4(text::split(s, CharClass::Is(':'))) {
            Some(g) if g.len() == 8 => Some(ipv6_of_groups(g)),
            _ => None,
        },
        Some(i) => match (head_groups(s.take(i)), tail_groups(s.skip(i + 2))) {
            (Some(h), Some(t)) if h.len() + t.len() <= 7 => Some(
                ipv6_of_groups(h + zero_groups((8 - h.len() - t.len()) as nat) + t),
            ),
            _ => None,
        },
    }
}

/// The IP address that `s` writes.
pub open spec fn ip_text(s: Seq<char>) -> Option<IpAddr> {
    match ipv4_text(s) {
        Some(ip) => Some(IpAddr::V4(ip)),
        None => match ipv6_text(s) {
            Some(ip) => Some(IpAddr::V6(ip)),
            None => None,
        },
    }
}

fn read_octet(s: &[char]) -> (r: Option<u8>)
    ensures
        match r {
            Some(v) => octet(s@) == Some(v as nat),
            None => octet(s@) is None,
        },
{
    if s.len() > 3 || (s.len() > 1 && s[0] == '0') {
        return None;
    }
    match number::read_numeral(s, 10, 255) {
        Some(v) => Some(v as u8),
        None => None,
    }
}

/// Reads an IPv4 address.
pub fn read_ipv4(s: &[char]) -> (r: Option<Ipv4Addr>)
    ensures
        r == ipv4_text(s@),
{
    let parts = text::pieces(s, CharClass::Is('.'));
    assert(text::rows(parts@).len() == parts@.len());
    if parts.len() != 4 {
        return None;
    }
    assert(forall|k: int| 0 <= k < 4 ==> #[trigger] text::rows(parts@)[k] == parts@[k]@);
    let a = read_octet(&parts[0]);
    let b = read_octet(&parts[1]);
    let c = read_octet(&parts[2]);
    let d = read_octet(&parts[3]);
    match (a, b, c, d) {
        (Some(a), Some(b), Some(c), Some(d)) => Some(Ipv4Addr::new(a, b, c, d)),
        _ => None,
    }
}

fn read_group(s: &[char]) -> (r: Option<u16>)
    ensures
        match r {
            Some(v) => group(s@) == Some(v as nat),
            None => group(s@) is None,
        },
{
    if s.len() > 4 {
        return None;
    }
    match number::read_numeral(s, 16, 0xffff) {
        Some(v) => Some(v as u16),
        None => None,
    }
}

/// The groups `v` as numbers.
pub open spec fn group_numbers(v: Seq<u16>) -> Seq<nat> {
    v.map_values(|g: u16| g as nat)
}

/// Reads the first `n` of `parts` as groups.
fn read_groups(parts: &Vec<Vec<char>>, n: usize) -> (r: Option<Vec<u16>>)
    requires
        n <= parts@.len(),
    ensures
        match r {
            Some(v) => groups(text::rows(parts@).take(n as int)) == Some(group_numbers(v@)) && v@.len()
                == n,
            None => groups(text::rows(parts@).take(n as int)) is None,
        },
{
    let ghost all = text::rows(parts@);
    let mut out: Vec<u16> = Vec::new();
    let mut i: usize = 0;
    assert(group_numbers(out@) =~= Seq::<nat>::empty());
    while i < n
        invariant
            i <= n <= parts@.len(),
            all == text::rows(parts@),
            out@.len() == i,
            groups(all.take(i as int)) == Some(group_numbers(out@)),
        decreases n - i,
    {
        proof {
            assert(all.take(i + 1).drop_last() =~= all.take(i as int));
            assert(all.take(i + 1).last() == parts@[i as int]@);
        }
        match read_group(&parts[i]) {
            None => {
                proof {
                    lemma_bad_groups(all.take(n as int), i + 1);
                    assert(all.take(n as int).take(i + 1) =~= all.take(i + 1));
                }
                return None;
            },
            Some(v) => {
                let ghost out0 = out@;
                out.push(v);
                assert(group_numbers(out@) =~= group_numbers(out0).push(v as nat));
            },
        }
        i = i + 1;
    }
    Some(out)
}

proof fn lemma_bad_groups(parts: Seq<Seq<char>>, i: int)
    requires
        0 <= i <= parts.len(),
        groups(parts.take(i)) is None,
    ensures
        groups(parts) is None,
    decreases parts.len() - i,
{
    if i < parts.len() {
        assert(parts.take(i + 1).drop_last() =~= parts.take(i));
        lemma_bad_groups(parts, i + 1);
    } else {
        assert(parts.take(i) =~= parts);
    }
}

fn read_head_groups(s: &[char]) -> (r: Option<Vec<u16>>)
    ensures
        match r {
            Some(v) => head_groups(s@) == Some(group_numbers(v@)),
            None => head_groups(s@) is None,
        },
{
    if s.len() == 0 {
        let out: Vec<u16> = Vec::new();
        assert(group_numbers(out@) =~= Seq::<nat>::empty());
        return Some(out);
    }
    let parts = text::pieces(s, CharClass::Is(':'));
    let n: usize = parts.len();
    assert(text::rows(parts@).take(n as int) =~= text::rows(parts@));
    read_groups(&parts, n)
}

/// Reads groups of which the last two may be written as an IPv4 address.
fn read_groups_then_ipv4(s: &[char]) -> (r: Option<Vec<u16>>)
    ensures
        match r {
            Some(v) => groups_then_ipv4(text::split(s@, CharClass::Is(':'))) == Some(group_numbers(v@)),
            None => groups_then_ipv4(text::split(s@, CharClass::Is(':'))) is None,
        },
{
    let parts = text::pieces(s, CharClass::Is(':'));
    let n: usize = parts.len();
    let ghost all = text::rows(parts@);
    proof {
        assert(all.take(n as int) =~= all);
        assert(all.take(n - 1) =~= all.drop_last());
        assert(all.last() == parts@[n - 1]@);
    }
    match read_groups(&parts, n) {
        Some(v) => Some(v),
        None => {
            let head = read_groups(&parts, n - 1);
            let last = read_ipv4(&parts[n - 1]);
            match (head, last) {
                (Some(g), Some(ip)) => {
                    let mut out = g;
                    let ghost out0 = out@;
                    out.push((ip.bits / 65536) as u16);
                    out.push((ip.bits % 65536) as u16);
                    assert(group_numbers(out@) =~= group_numbers(out0).push(
                        (ip.bits / 65536) as nat,
                    ).push((ip.bits % 65536) as nat));
                    Some(out)
                },
                _ => None,
            }
        },
    }
}

fn read_tail_groups(s: &[char]) -> (r: Option<Vec<u16>>)
    ensures
        match r {
            Some(v) => tail_groups(s@) == Some(group_numbers(v@)),
            None => tail_groups(s@) is None,
        },
{
    if s.len() == 0 {
        let out: Vec<u16> = Vec::new();
        assert(group_numbers(out@) =~= Seq::<nat>::empty());
        return Some(out);
    }
    read_groups_then_ipv4(s)
}

spec fn groups_bound(n: nat) -> nat
    decreases n,
{
    if n == 0 {
        1
    } else {
        groups_bound((n - 1) as nat) * 65536
    }
}

proof fn lemma_groups_bound(n: nat)
    requires
        n <= 8,
    ensures
        groups_bound(n) <= 0x1_0000_0000_0000_0000_0000_0000_0000_0000,
        n < 8 ==> groups_bound(n) <= 0x1_0000_0000_0000_0000_0000_0000_0000,
{
    reveal_with_fuel(groups_bound, 9);
}

/// The address whose groups are `g`.
fn ipv6_from_groups(g: &Vec<u16>) -> (r: Ipv6Addr)
    requires
        g@.len() == 8,
    ensures
        r == ipv6_of_groups(group_numbers(g@)),
{
    let ghost all = group_numbers(g@);
    let mut bits: u128 = 0;
    let mut i: usize = 0;
    assert(all.take(0) =~= Seq::<nat>::empty());
    while i < 8
        invariant
            i <= 8,
            g@.len() == 8,
            all == group_numbers(g@),
            bits == groups_value(all.take(i as int)),
            bits < groups_bound(i as nat),
        decreases 8 - i,
    {
        proof {
            lemma_groups_bound(i as nat);
            lemma_groups_bound((i + 1) as nat);
            assert(all.take(i + 1).drop_last() =~= all.take(i as int));
            assert(all.take(i + 1).last() == g@[i as int]);
        }
        bits = bits * 65536 + g[i] as u128;
        i = i + 1;
    }
    assert(all.take(8) =~= all);
    Ipv6Addr { bits }
}

/// Where the first `::` stands in `s`.
fn find_gap(s: &[char]) -> (r: Option<usize>)
    ensures
        match r {
            Some(i) => gap_from(s@, 0) == Some(i as int) && i + 2 <= s@.len(),
            None => gap_from(s@, 0) is None,
        },
{
    let n: usize = s.len();
    if n < 2 {
        return None;
    }
    let mut i: usize = 0;
    while i < n - 1
        invariant
            2 <= n == s@.len(),
            i <= n - 1,
            gap_from(s@, 0) == gap_from(s@, i as int),
        decreases n - i,
    {
        if s[i] == ':' && s[i + 1] == ':' {
            return Some(i);
        }
        i = i + 1;
    }
    None
}

/// Reads an IPv6 address.
pub fn read_ipv6(s: &[char]) -> (r: Option<Ipv6Addr>)
    ensures
        r == ipv6_text(s@),
{
    let n: usize = s.len();
    match find_gap(s) {
        None => match read_groups_then_ipv4(s) {
            Some(g) => {
                assert(group_numbers(g@).len() == g@.len());
                if g.len() == 8 {
                    Some(ipv6_from_groups(&g))
                } else {
                    None
                }
            },
            None => None,
        },
        Some(i) => {
            let head = read_head_groups(text::before(s, i));
            assert(i + 2 <= n);
            let tail = read_tail_groups(text::after(s, i + 2));
            match (head, tail) {
                (Some(h), Some(t)) => {
                    let hn: usize = h.len();
                    let tn: usize = t.len();
                    assert(group_numbers(h@).len() == hn && group_numbers(t@).len() == tn);
                    if hn > 7 || tn > 7 - hn {
                        return None;
                    }
                    let ghost h0 = h@;
                    let ghost t0 = t@;
                    let mut all = h;
                    let mut k: usize = hn;
                    while k < 8 - tn
                        invariant
                            hn + tn <= 7,
                            hn <= k <= 8 - tn,
                            h0.len() == hn,
                            all@ == h0 + Seq::new((k - hn) as nat, |i: int| 0u16),
                        decreases 8 - tn - k,
                    {
                        all.push(0);
                        k = k + 1;
                        assert(all@ =~= h0 + Seq::new((k - hn) as nat, |i: int| 0u16));
                    }
                    let mut rest = t;
                    all.append(&mut rest);
                    assert(group_numbers(all@) =~= group_numbers(h0) + zero_groups(
                        (8 - hn - tn) as nat,
                    ) + group_numbers(t0));
                    Some(ipv6_from_groups(&all))
                },
                _ => None,
            }
        },
    }
}

/// Reads an IP address of either kind.
pub fn read_ip(s: &[char]) -> (r: Option<IpAddr>)
    ensures
        r == ip_text(s@),
{
    match read_ipv4(s) {
        Some(ip) => Some(IpAddr::V4(ip)),
        None => match read_ipv6(s) {
            Some(ip) => Some(IpAddr::V6(ip)),
            None => None,
        },
    }
}

/// A port in base 10.
pub open spec fn port(s: Seq<char>) -> Option<nat> {
    number::numeral(s, 10, 0xffff)
}

/// An IPv4 address, a colon and a port.
pub open spec fn socket_v4_text(s: Seq<char>) -> Option<SocketAddr> {
    let parts = text::split(s, CharClass::Is(':'));
    if parts.len() == 2 {
        match (ipv4_text(parts[0]), port(parts[1])) {
            (Some(ip), Some(p)) => Some(
                SocketAddr { ip: IpAddr::V4(ip), port: p as u16, scope_id: 0 },
            ),
            _ => None,
        }
    } else {
        None
    }
}

/// An IPv6 address, where there is one a percent sign and a scope behind it.
pub open spec fn scoped_ipv6_text(s: Seq<char>) -> Option<(Ipv6Addr, nat)> {
    let parts = text::split(s, CharClass::Is('%'));
    if parts.len() == 1 {
        match ipv6_text(parts[0]) {
            Some(ip) => Some((ip, 0)),
            None => None,
        }
    } else if parts.len() == 2 {
        match (ipv6_text(parts[0]), number::numeral(parts[1], 10, 0xffff_ffff)) {
            (Some(ip), Some(scope)) => Some((ip, scope)),
            _ => None,
        }
    } else {
        None
    }
}

/// An IPv6 address in square brackets, a colon and a port.
pub open spec fn socket_v6_text(s: Seq<char>) -> Option<SocketAddr> {
    let parts = text::split(s, CharClass::Is(']'));
    if parts.len() == 2 && parts[0].len() > 0 && parts[0][0] == '[' && parts[1].len() > 0
        && parts[1][0] == ':' {
        match (scoped_ipv6_text(parts[0].skip(1)), port(parts[1].skip(1))) {
            (Some(scoped), Some(p)) => Some(
                SocketAddr {
                    ip: IpAddr::V6(scoped.0),
                    port: p as u16,
                    scope_id: scoped.1 as u32,
                },
            ),
            _ => None,
        }
    } else {
        None
    }
}

/// The socket address that `s` writes.
pub open spec fn socket_text(s: Seq<char>) -> Option<SocketAddr> {
    match socket_v4_text(s) {
        Some(addr) => Some(addr),
        None => socket_v6_text(s),
    }
}

fn read_socket_v4(s: &[char]) -> (r: Option<SocketAddr>)
    ensures
        r == socket_v4_text(s@),
{
    let parts = text::pieces(s, CharClass::Is(':'));
    assert(text::rows(parts@).len() == parts@.len());
    if parts.len() != 2 {
        return None;
    }
    assert(forall|k: int| 0 <= k < 2 ==> #[trigger] text::rows(parts@)[k] == parts@[k]@);
    let ip = read_ipv4(&parts[0]);
    let port = number::read_numeral(&parts[1], 10, 0xffff);
    match (ip, port) {
        (Some(ip), Some(p)) => Some(
            SocketAddr { ip: IpAddr::V4(ip), port: p as u16, scope_id: 0 },
        ),
        _ => None,
    }
}

fn read_scoped_ipv6(s: &[char]) -> (r: Option<(Ipv6Addr, u32)>)
    ensures
        match r {
            Some(v) => scoped_ipv6_text(s@) == Some((v.0, v.1 as nat)),
            None => scoped_ipv6_text(s@) is None,
        },
{
    let parts = text::pieces(s, CharClass::Is('%'));
    assert(text::rows(parts@).len() == parts@.len());
    if parts.len() > 2 {
        return None;
    }
    assert(forall|k: int|
        0 <= k < parts@.len() ==> #[trigger] text::rows(parts@)[k] == parts@[k]@);
    let ip = match read_ipv6(&parts[0]) {
        Some(ip) => ip,
        None => return None,
    };
    if parts.len() == 1 {
        return Some((ip, 0));
    }
    match number::read_numeral(&parts[1], 10, 0xffff_ffff) {
        Some(scope) => Some((ip, scope as u32)),
        None => None,
    }
}

fn read_socket_v6(s: &[char]) -> (r: Option<SocketAddr>)
    ensures
        r == socket_v6_text(s@),
{
    let parts = text::pieces(s, CharClass::Is(']'));
    assert(text::rows(parts@).len() == parts@.len());
    if parts.len() != 2 {
        return None;
    }
    assert(forall|k: int| 0 <= k < 2 ==> #[trigger] text::rows(parts@)[k] == parts@[k]@);
    if parts[0].len() == 0 || parts[0][0] != '[' || parts[1].len() == 0 || parts[1][0] != ':' {
        return None;
    }
    let scoped = read_scoped_ipv6(text::after(&parts[0], 1));
    let port = number::read_numeral(text::after(&parts[1], 1), 10, 0xffff);
    match (scoped, port) {
        (Some(v), Some(p)) => Some(
            SocketAddr { ip: IpAddr::V6(v.0), port: p as u16, scope_id: v.1 },
        ),
        _ => None,
    }
}

/// Reads a socket address.
pub fn read_socket(s: &[char]) -> (r: Option<SocketAddr>)
    ensures
        r == socket_text(s@),
{
    match read_socket_v4(s) {
        Some(addr) => Some(addr),
        None => read_socket_v6(s),
    }
}

/// A network: an address and how many of its leading bits the addresses of
/// the network share.
#[derive(Clone, Copy, Debug, PartialEq, Eq, Structural)]
pub enum IpNet {
    V4(Ipv4Addr, u8),
    V6(Ipv6Addr, u8),
}

impl IpNet {
    /// No more bits are shared than an address has.
    pub open spec fn valid(self) -> bool {
        match self {
            IpNet::V4(_, prefix_len) => prefix_len <= 32,
            IpNet::V6(_, prefix_len) => prefix_len <= 128,
        }
    }

    /// Whether `ip` is of the network's kind and shares its bits.
    pub open spec fn holds(self, ip: IpAddr) -> bool {
        match (self, ip) {
            (IpNet::V4(addr, prefix_len), IpAddr::V4(v4)) => {
                let size = vstd::arithmetic::power2::pow2((32 - prefix_len) as nat);
                prefix_len <= 32 && addr.bits as nat / size == v4.bits as nat / size
            },
            (IpNet::V6(addr, prefix_len), IpAddr::V6(v6)) => {
                let size = vstd::arithmetic::power2::pow2((128 - prefix_len) as nat);
                prefix_len <= 128 && addr.bits as nat / size == v6.bits as nat / size
            },
            _ => false,
        }
    }

    /// Whether the network holds `ip`.
    pub fn contains(&self, ip: &IpAddr) -> (r: bool)
        ensures
            r == self.holds(*ip),
    {
        match (self, ip) {
            (IpNet::V4(addr, prefix_len), IpAddr::V4(v4)) => {
                if *prefix_len > 32 {
                    return false;
                }
                let shift: u64 = (32 - *prefix_len) as u64;
                let a: u64 = addr.bits as u64;
                let b: u64 = v4.bits as u64;
                proof {
                    vstd::bits::lemma_u64_shr_is_div(a, shift);
                    vstd::bits::lemma_u64_shr_is_div(b, shift);
                }
                (a >> shift) == (b >> shift)
            },
            (IpNet::V6(addr, prefix_len), IpAddr::V6(v6)) => {
                if *prefix_len > 128 {
                    return false;
                }
                if *prefix_len == 0 {
                    proof {
                        lemma_above_u128(addr.bits);
                        lemma_above_u128(v6.bits);
                    }
                    return true;
                }
                let shift: u128 = (128 - *prefix_len) as u128;
                let a: u128 = addr.bits;
                let b: u128 = v6.bits;
                proof {
                    vstd::bits::lemma_u128_shr_is_div(a, shift);
                    vstd::bits::lemma_u128_shr_is_div(b, shift);
                }
                (a >> shift) == (b >> shift)
            },
            _ => false,
        }
    }
}

proof fn lemma_above_u128(n: u128)
    ensures
        n as nat / vstd::arithmetic::power2::pow2(128) == 0,
{
    vstd::arithmetic::power2::lemma2_to64();
    vstd::arithmetic::power2::lemma2_to64_rest();
    vstd::arithmetic::power2::lemma_pow2_adds(64, 64);
    assert(vstd::arithmetic::power2::pow2(128) == 0x1_0000_0000_0000_0000_0000_0000_0000_0000);
    vstd::arithmetic::div_mod::lemma_basic_div(
        n as int,
        vstd::arithmetic::power2::pow2(128) as int,
    );
}

/// The network that an address, a slash and the number of shared bits write.
pub open spec fn cidr_text(s: Seq<char>) -> Option<IpNet> {
    let parts = text::split(s, CharClass::Is('/'));
    if parts.len() != 2 {
        None
    } else {
        match (ip_text(parts[0]), number::numeral(parts[1], 10, 128)) {
            (Some(IpAddr::V4(ip)), Some(n)) if parts[1].len() <= 2 && n <= 32 => Some(
                IpNet::V4(ip, n as u8),
            ),
            (Some(IpAddr::V6(ip)), Some(n)) if parts[1].len() <= 3 => Some(IpNet::V6(ip, n as u8)),
            _ => None,
        }
    }
}

/// The network that `IpNet::from_str` of the crate `ipnet` reads from a text.
pub uninterp spec fn ip_net_parse(s: Seq<char>) -> Option<IpNet>;

/// Calls `IpNet::from_str` of the crate `ipnet`. What it reads depends on the
/// text alone and shares no more bits than an address has. It reads every
/// text of an address, a slash and a number of bits, and none without a
/// slash; its error has always the same words.
#[verifier::external_body]
pub(crate) fn parse_ip_net(s: &str) -> (r: Result<IpNet, String>)
    ensures
        match r {
            Ok(net) => ip_net_parse(s@) == Some(net) && net.valid(),
            Err(e) => ip_net_parse(s@) is None && e@ == addr_error_text(AddrParseError::Ip),
        },
        cidr_text(s@) is Some ==> r is Ok && r->Ok_0 == cidr_text(s@).unwrap(),
        !s@.contains('/') ==> r is Err,
{
    match s.parse::<ipnet::IpNet>() {
        Ok(ipnet::IpNet::V4(net)) => Ok(
            IpNet::V4(Ipv4Addr { bits: u32::from(net.addr()) }, net.prefix_len()),
        ),
        Ok(ipnet::IpNet::V6(net)) => Ok(
            IpNet::V6(Ipv6Addr { bits: u128::from(net.addr()) }, net.prefix_len()),
        ),
        Err(err) => Err(err.to_string()),
    }
}

} // verus!
