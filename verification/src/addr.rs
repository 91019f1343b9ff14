//! Network addresses as plain values.

use crate::config::RawServerAddr;
use crate::text::{first_index, number, parse_number, pieces, split, split_on, str_prefix, utf8};
use vstd::prelude::*;

verus! {

/// An IP address: the 32 bits of an IPv4 address or the 128 bits of an IPv6
/// address, most significant octet first.
#[derive(Clone, Copy, Debug, PartialEq, Eq, Structural, Hash)]
pub enum IpAddress {
    V4(u32),
    V6(u128),
}

/// An IP address together with a port.
#[derive(Clone, Copy, Debug, PartialEq, Eq, Structural, Hash)]
pub struct SockAddr {
    pub ip: IpAddress,
    pub port: u16,
}

/// The transport protocol of a flow.
#[derive(Clone, Copy, Debug, PartialEq, Eq, Structural, Hash)]
pub enum NetworkType {
    Tcp,
    Udp,
}

/// The destination of a flow: a socket address, or a host name with a port
/// that has not been resolved yet.
#[derive(Debug)]
pub enum NetworkAddr {
    Raw(SockAddr),
    DomainName { domain_name: String, port: u16 },
}

/// What a `NetworkAddr` is, with the host name as a sequence of characters.
pub enum NetworkAddrView {
    Raw(SockAddr),
    DomainName { domain_name: Seq<char>, port: u16 },
}

impl View for NetworkAddr {
    type V = NetworkAddrView;

    open spec fn view(&self) -> NetworkAddrView {
        match self {
            NetworkAddr::Raw(s) => NetworkAddrView::Raw(*s),
            NetworkAddr::DomainName { domain_name, port } => NetworkAddrView::DomainName {
                domain_name: domain_name@,
                port: *port,
            },
        }
    }
}

impl IpAddress {
    /// Builds an IPv4 address from its four octets.
    pub fn from_octets(a: u8, b: u8, c: u8, d: u8) -> (ip: IpAddress)
        ensures
            ip == IpAddress::V4(ipv4_bits(a, b, c, d)),
    {
        let hi: u32 = (a as u32) * 0x100_0000 + (b as u32) * 0x1_0000;
        let lo: u32 = (c as u32) * 0x100 + (d as u32);
        IpAddress::V4(hi + lo)
    }

    /// Whether this is an IPv4 address.
    pub fn is_v4(&self) -> (b: bool)
        ensures
            b == (*self is V4),
    {
        match self {
            IpAddress::V4(_) => true,
            IpAddress::V6(_) => false,
        }
    }
}

/// The 32 bits of the IPv4 address `a.b.c.d`.
pub open spec fn ipv4_bits(a: u8, b: u8, c: u8, d: u8) -> u32 {
    (a as int * 0x100_0000 + b as int * 0x1_0000 + c as int * 0x100 + d as int) as u32
}

impl NetworkAddr {
    /// The port of the destination.
    pub fn port(&self) -> (p: u16)
        ensures
            p == match self@ {
                NetworkAddrView::Raw(s) => s.port,
                NetworkAddrView::DomainName { port, .. } => port,
            },
    {
        match self {
            NetworkAddr::Raw(s) => s.port,
            NetworkAddr::DomainName { port, .. } => *port,
        }
    }
}

/// The number that a part of a dotted IPv4 address writes: one to three
/// digits that make at most 255.
pub open spec fn octet(s: Seq<u8>) -> Option<nat> {
    if s.len() <= 3 {
        number(s, 255)
    } else {
        None
    }
}

/// The IPv4 address that `s` writes as four numbers with dots between them.
pub open spec fn ipv4_of(s: Seq<u8>) -> Option<u32> {
    let p = split(s, 0x2e);
    if p.len() == 4 && octet(p[0]) is Some && octet(p[1]) is Some && octet(p[2]) is Some && octet(
        p[3],
    ) is Some {
        Some(
            ipv4_bits(
                octet(p[0])->0 as u8,
                octet(p[1])->0 as u8,
                octet(p[2])->0 as u8,
                octet(p[3])->0 as u8,
            ),
        )
    } else {
        None
    }
}

/// Reads one part of a dotted IPv4 address.
fn parse_octet(s: &[u8]) -> (r: Option<u8>)
    ensures
        match r {
            Some(n) => octet(s@) == Some(n as nat),
            None => octet(s@) is None,
        },
{
    if s.len() > 3 {
        return None;
    }
    match parse_number(s, 255) {
        Some(n) => Some(n as u8),
        None => None,
    }
}

/// Reads an IPv4 address written as four numbers with dots between them.
pub fn parse_ipv4(s: &[u8]) -> (r: Option<u32>)
    ensures
        r == ipv4_of(s@),
{
    let p = split_on(s, 0x2e);
    if p.len() != 4 {
        return None;
    }
    assert(pieces(p@)[0] == p@[0]@ && pieces(p@)[1] == p@[1]@ && pieces(p@)[2] == p@[2]@
        && pieces(p@)[3] == p@[3]@);
    let a = parse_octet(p[0].as_slice());
    let b = parse_octet(p[1].as_slice());
    let c = parse_octet(p[2].as_slice());
    let d = parse_octet(p[3].as_slice());
    match (a, b, c, d) {
        (Some(a), Some(b), Some(c), Some(d)) => match IpAddress::from_octets(a, b, c, d) {
            IpAddress::V4(bits) => Some(bits),
            IpAddress::V6(_) => None,
        },
        _ => None,
    }
}

/// The IPv4 network that `s` writes as an address, a slash and the number of
/// bits of the prefix, at most 32.
pub open spec fn cidr_of(s: Seq<u8>) -> Option<(u32, u8)> {
    let p = split(s, 0x2f);
    if p.len() == 2 && ipv4_of(p[0]) is Some && p[1].len() <= 2 && number(p[1], 32) is Some {
        Some((ipv4_of(p[0])->0, number(p[1], 32)->0 as u8))
    } else {
        None
    }
}

/// Reads an IPv4 network.
pub fn parse_cidr(s: &[u8]) -> (r: Option<(u32, u8)>)
    ensures
        r == cidr_of(s@),
{
    let p = split_on(s, 0x2f);
    if p.len() != 2 {
        return None;
    }
    assert(pieces(p@)[0] == p@[0]@ && pieces(p@)[1] == p@[1]@);
    if p[1].len() > 2 {
        return None;
    }
    match (parse_ipv4(p[0].as_slice()), parse_number(p[1].as_slice(), 32)) {
        (Some(net), Some(bits)) => Some((net, bits as u8)),
        _ => None,
    }
}

/// What the text with bytes `b` gives as a host and a port: the host before
/// the first colon, and the number of at most 65535 between the first colon
/// and the second, or the end.
pub open spec fn host_port_of(b: Seq<u8>) -> Option<(Seq<u8>, u16)> {
    let p = split(b, 0x3a);
    if p.len() >= 2 && number(p[1], 65535) is Some {
        Some((p[0], number(p[1], 65535)->0 as u16))
    } else {
        None
    }
}

/// The first piece of a split is what stands before the first separator.
pub proof fn split_first_piece(s: Seq<u8>, sep: u8)
    ensures
        split(s, sep).len() >= 1,
        split(s, sep)[0] == s.subrange(0, first_index(s, sep)),
        split(s, sep).len() >= 2 <==> first_index(s, sep) < s.len(),
{
    crate::text::first_index_is_least(s, sep);
    let i = first_index(s, sep);
    if i < s.len() {
        let rest = split(s.subrange(i + 1, s.len() as int), sep);
        crate::text::first_index_is_least(s.subrange(i + 1, s.len() as int), sep);
        assert(rest.len() >= 1) by {
            reveal_with_fuel(split, 1);
        }
    } else {
        assert(s.subrange(0, i) =~= s);
    }
}

impl NetworkAddr {
    /// The address of a server from its configured host and port.
    pub fn from(server: &RawServerAddr, port: u16) -> (r: NetworkAddr)
        ensures
            r@ == match *server {
                RawServerAddr::IpAddr(ip) => NetworkAddrView::Raw(SockAddr { ip, port }),
                RawServerAddr::DomainName(d) => NetworkAddrView::DomainName { domain_name: d@, port },
            },
    {
        match server {
            RawServerAddr::IpAddr(ip) => NetworkAddr::Raw(SockAddr { ip: *ip, port }),
            RawServerAddr::DomainName(d) => NetworkAddr::DomainName { domain_name: d.clone(), port },
        }
    }

    /// Whether the address is the one that `host` and `port` denote: a socket
    /// address where `host` writes an IPv4 address, else a host name.
    pub open spec fn denotes(self, host: Seq<u8>, port: u16) -> bool {
        match ipv4_of(host) {
            Some(bits) => self@ == NetworkAddrView::Raw(SockAddr { ip: IpAddress::V4(bits), port }),
            None => self@ matches NetworkAddrView::DomainName { domain_name, port: p } && p == port
                && utf8(domain_name) == host,
        }
    }

    /// Reads `host:port`. What follows a second colon is not read.
    pub fn parse(s: &str) -> (r: Option<NetworkAddr>)
        ensures
            match r {
                Some(a) => host_port_of(utf8(s@)) matches Some(hp) && a.denotes(hp.0, hp.1),
                None => host_port_of(utf8(s@)) is None,
            },
    {
        match split_host_port(s) {
            Some((host, port)) => match parse_ipv4(host.as_str().as_bytes()) {
                Some(bits) => Some(NetworkAddr::Raw(SockAddr { ip: IpAddress::V4(bits), port })),
                None => Some(NetworkAddr::DomainName { domain_name: host, port }),
            },
            None => None,
        }
    }
}

/// Splits `host:port` into the host and the port. What follows a second
/// colon is not read.
pub fn split_host_port(s: &str) -> (r: Option<(String, u16)>)
    ensures
        match r {
            Some((host, port)) => host_port_of(utf8(s@)) == Some((utf8(host@), port)),
            None => host_port_of(utf8(s@)) is None,
        },
{
    let b = s.as_bytes();
    let p = split_on(b, 0x3a);
    proof {
        split_first_piece(b@, 0x3a);
    }
    if p.len() < 2 {
        return None;
    }
    assert(pieces(p@)[0] == p@[0]@ && pieces(p@)[1] == p@[1]@);
    match parse_number(p[1].as_slice(), 65535) {
        Some(port) => {
            let k = p[0].len();
            proof {
                crate::text::first_index_is_least(b@, 0x3a);
            }
            let host = str_prefix(s, k);
            Some((host, port as u16))
        },
        None => None,
    }
}

impl PartialEq for NetworkAddr {
    fn eq(&self, other: &NetworkAddr) -> (r: bool) {
        match (self, other) {
            (NetworkAddr::Raw(a), NetworkAddr::Raw(b)) => *a == *b,
            (
                NetworkAddr::DomainName { domain_name: d1, port: p1 },
                NetworkAddr::DomainName { domain_name: d2, port: p2 },
            ) => *p1 == *p2 && *d1 == *d2,
            _ => false,
        }
    }
}

impl vstd::std_specs::cmp::PartialEqSpecImpl for NetworkAddr {
    open spec fn obeys_eq_spec() -> bool {
        true
    }

    open spec fn eq_spec(&self, other: &NetworkAddr) -> bool {
        self@ == other@
    }
}

} // verus!
