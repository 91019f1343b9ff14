//! Proxies, proxy groups and the table that holds them.
//!
//! Proxies and groups share one table and one namespace. An entry refers to
//! other entries by their index, and only to entries before it, so the table
//! is a directed acyclic graph.

use crate::addr::{IpAddress, NetworkAddr, SockAddr};
use crate::chain::{ChainOutbound, OutboundType, TcpTransferType, UdpTransferType};
use crate::config::AuthData;
use crate::text::{str_eq, utf8};
use vstd::prelude::*;

verus! {

/// The ciphers that a Shadowsocks proxy may use.
#[derive(Clone, Copy, Debug, PartialEq, Eq, Structural)]
pub enum CipherKind {
    Chacha20Poly1305,
    Aes256Gcm,
    Aes128Gcm,
}

/// An HTTP proxy.
#[derive(Debug)]
pub struct HttpConfig {
    pub server_addr: NetworkAddr,
    pub auth: Option<AuthData>,
}

/// A SOCKS5 proxy.
#[derive(Debug)]
pub struct Socks5Config {
    pub server_addr: NetworkAddr,
    pub auth: Option<AuthData>,
    pub udp: bool,
}

/// A Shadowsocks proxy.
#[derive(Debug)]
pub struct ShadowSocksConfig {
    pub server_addr: NetworkAddr,
    pub password: String,
    pub cipher_kind: CipherKind,
    pub udp: bool,
}

/// A Trojan proxy.
#[derive(Debug)]
pub struct TrojanConfig {
    pub server_addr: NetworkAddr,
    pub password: String,
    pub sni: String,
    pub skip_cert_verify: bool,
    pub websocket_path: Option<String>,
    pub udp: bool,
}

/// A WireGuard peer. The keys are held as their 32 bytes.
#[derive(Debug)]
pub struct WireguardConfig {
    pub ip_addr: IpAddress,
    pub private_key: Vec<u8>,
    pub public_key: Vec<u8>,
    pub endpoint: NetworkAddr,
    pub mtu: usize,
    pub preshared_key: Option<Vec<u8>>,
    pub keepalive: Option<u16>,
    pub dns: Vec<SockAddr>,
    pub reserved: Option<[u8; 3]>,
}

/// A reference to an entry of the table: to a proxy or to a group.
#[derive(Clone, Copy, Debug, PartialEq, Eq, Structural)]
pub enum GeneralProxy {
    Single(usize),
    Group(usize),
}

/// How a proxy carries a flow.
#[derive(Debug)]
pub enum ProxyImpl {
    Direct,
    Reject,
    Http(HttpConfig),
    Socks5(Socks5Config),
    Shadowsocks(ShadowSocksConfig),
    Trojan(TrojanConfig),
    Wireguard(WireguardConfig),
    Chain(Vec<GeneralProxy>),
}

/// A proxy under its name.
#[derive(Debug)]
pub struct Proxy {
    pub name: String,
    pub imp: ProxyImpl,
}

/// A group of proxies, of which one is selected.
#[derive(Debug)]
pub struct ProxyGroup {
    pub name: String,
    pub members: Vec<GeneralProxy>,
    pub selected: usize,
    pub interface: Option<String>,
}

/// An entry of the table: a proxy or a group.
#[derive(Debug)]
pub enum Entry {
    Proxy(Proxy),
    Group(ProxyGroup),
}

/// The proxies and groups of a configuration, each under its name.
#[derive(Debug)]
pub struct ProxyTable {
    pub entries: Vec<Entry>,
}

/// The index of the proxy `DIRECT` in every table.
pub const DIRECT: usize = 0;

/// The index of the proxy `REJECT` in every table.
pub const REJECT: usize = 1;

/// How an outbound carries UDP that carries it as it is, or not at all.
pub open spec fn plain_udp(udp: bool) -> UdpTransferType {
    if udp {
        UdpTransferType::PlainUdp
    } else {
        UdpTransferType::NotSupported
    }
}

impl ProxyImpl {
    /// What the outbound of the proxy says of its transport. HTTP carries
    /// no UDP; Trojan carries UDP over TCP; WireGuard carries TCP over UDP.
    /// A chain says nothing of its own: its hops do.
    pub open spec fn spec_outbound_type(&self) -> Option<OutboundType> {
        match self {
            ProxyImpl::Direct => Some(
                OutboundType { tcp: TcpTransferType::PlainTcp, udp: UdpTransferType::PlainUdp },
            ),
            ProxyImpl::Reject => Some(
                OutboundType { tcp: TcpTransferType::PlainTcp, udp: UdpTransferType::PlainUdp },
            ),
            ProxyImpl::Http(_) => Some(
                OutboundType { tcp: TcpTransferType::PlainTcp, udp: UdpTransferType::NotSupported },
            ),
            ProxyImpl::Socks5(c) => Some(
                OutboundType { tcp: TcpTransferType::PlainTcp, udp: plain_udp(c.udp) },
            ),
            ProxyImpl::Shadowsocks(c) => Some(
                OutboundType { tcp: TcpTransferType::PlainTcp, udp: plain_udp(c.udp) },
            ),
            ProxyImpl::Trojan(c) => Some(
                OutboundType {
                    tcp: TcpTransferType::PlainTcp,
                    udp: if c.udp {
                        UdpTransferType::UdpOverTcp
                    } else {
                        UdpTransferType::NotSupported
                    },
                },
            ),
            ProxyImpl::Wireguard(_) => Some(
                OutboundType { tcp: TcpTransferType::TcpOverUdp, udp: UdpTransferType::PlainUdp },
            ),
            ProxyImpl::Chain(_) => None,
        }
    }

    #[verifier::when_used_as_spec(spec_outbound_type)]
    pub fn outbound_type(&self) -> (t: Option<OutboundType>)
        ensures
            t == self.spec_outbound_type(),
    {
        match self {
            ProxyImpl::Direct => Some(
                OutboundType { tcp: TcpTransferType::PlainTcp, udp: UdpTransferType::PlainUdp },
            ),
            ProxyImpl::Reject => Some(
                OutboundType { tcp: TcpTransferType::PlainTcp, udp: UdpTransferType::PlainUdp },
            ),
            ProxyImpl::Http(_) => Some(
                OutboundType { tcp: TcpTransferType::PlainTcp, udp: UdpTransferType::NotSupported },
            ),
            ProxyImpl::Socks5(c) => Some(
                OutboundType {
                    tcp: TcpTransferType::PlainTcp,
                    udp: if c.udp {
                        UdpTransferType::PlainUdp
                    } else {
                        UdpTransferType::NotSupported
                    },
                },
            ),
            ProxyImpl::Shadowsocks(c) => Some(
                OutboundType {
                    tcp: TcpTransferType::PlainTcp,
                    udp: if c.udp {
                        UdpTransferType::PlainUdp
                    } else {
                        UdpTransferType::NotSupported
                    },
                },
            ),
            ProxyImpl::Trojan(c) => Some(
                OutboundType {
                    tcp: TcpTransferType::PlainTcp,
                    udp: if c.udp {
                        UdpTransferType::UdpOverTcp
                    } else {
                        UdpTransferType::NotSupported
                    },
                },
            ),
            ProxyImpl::Wireguard(_) => Some(
                OutboundType { tcp: TcpTransferType::TcpOverUdp, udp: UdpTransferType::PlainUdp },
            ),
            ProxyImpl::Chain(_) => None,
        }
    }
}

/// The transport of the proxy that a hop resolves to, if that is no chain.
pub open spec fn hop_type(entries: Seq<Entry>, hop: GeneralProxy) -> Option<OutboundType> {
    let k = resolve(entries, hop).proxy;
    if 0 <= k < entries.len() && entries[k] is Proxy {
        (entries[k]->Proxy_0).imp.spec_outbound_type()
    } else {
        None
    }
}

impl GeneralProxy {
    /// The index of the entry referred to.
    pub open spec fn index(self) -> int {
        match self {
            GeneralProxy::Single(k) => k as int,
            GeneralProxy::Group(k) => k as int,
        }
    }

    /// Whether the reference names an entry of its kind among the first
    /// `bound` entries.
    pub open spec fn valid(self, entries: Seq<Entry>, bound: int) -> bool {
        match self {
            GeneralProxy::Single(k) => k < bound && k < entries.len() && entries[k as int] is Proxy,
            GeneralProxy::Group(k) => k < bound && k < entries.len() && entries[k as int] is Group,
        }
    }
}

impl Entry {
    /// The name of the entry.
    pub open spec fn name(self) -> Seq<char> {
        match self {
            Entry::Proxy(p) => p.name@,
            Entry::Group(g) => g.name@,
        }
    }

    /// Whether every reference in the entry is to an entry among the first
    /// `bound` ones, and a group has a selected member.
    pub open spec fn refers_below(self, entries: Seq<Entry>, bound: int) -> bool {
        match self {
            Entry::Proxy(p) => match p.imp {
                ProxyImpl::Chain(hops) => forall|j: int|
                    0 <= j < hops.len() ==> (#[trigger] hops[j]).valid(entries, bound),
                _ => true,
            },
            Entry::Group(g) => {
                &&& g.selected < g.members.len()
                &&& forall|j: int|
                    0 <= j < g.members.len() ==> (#[trigger] g.members[j]).valid(entries, bound)
            },
        }
    }
}

/// Whether no two entries have the same name.
pub open spec fn names_distinct(entries: Seq<Entry>) -> bool {
    forall|i: int, j: int|
        0 <= i < j < entries.len() ==> (#[trigger] entries[i]).name() != (#[trigger] entries[j]).name()
}

/// Whether the entries are a table: `DIRECT` and `REJECT` come first, no name
/// occurs twice, and every entry refers only to entries before it.
pub open spec fn table_wf(entries: Seq<Entry>) -> bool {
    &&& entries.len() >= 2
    &&& entries[0] matches Entry::Proxy(p) && p.name@ == "DIRECT"@ && p.imp is Direct
    &&& entries[1] matches Entry::Proxy(p) && p.name@ == "REJECT"@ && p.imp is Reject
    &&& names_distinct(entries)
    &&& forall|i: int| 0 <= i < entries.len() ==> (#[trigger] entries[i]).refers_below(entries, i)
}

/// What a reference resolves to: the index of a proxy and the interface that
/// the flow is bound to, if a group on the way names one.
pub struct Resolved {
    pub proxy: int,
    pub iface: Option<String>,
}

/// Follows the selected members from `g` down to a proxy. The outermost group
/// that names an interface decides the interface.
pub open spec fn resolve(entries: Seq<Entry>, g: GeneralProxy) -> Resolved
    decreases g.index(),
{
    match g {
        GeneralProxy::Single(k) => Resolved { proxy: k as int, iface: None },
        GeneralProxy::Group(k) => {
            if k < entries.len() && entries[k as int] is Group {
                let grp = entries[k as int]->Group_0;
                if grp.selected < grp.members.len() && grp.members[grp.selected as int].index() < k {
                    let inner = resolve(entries, grp.members[grp.selected as int]);
                    Resolved {
                        proxy: inner.proxy,
                        iface: if grp.interface is Some {
                            grp.interface
                        } else {
                            inner.iface
                        },
                    }
                } else {
                    Resolved { proxy: REJECT as int, iface: None }
                }
            } else {
                Resolved { proxy: REJECT as int, iface: None }
            }
        },
    }
}

/// Whether the proxy at index `k` can carry UDP. A chain can where each of
/// its hops can.
pub open spec fn supports_udp(entries: Seq<Entry>, k: int) -> bool
    decreases k, 1int, 0int,
{
    if 0 <= k < entries.len() && entries[k] is Proxy {
        match (entries[k]->Proxy_0).imp {
            ProxyImpl::Direct => true,
            ProxyImpl::Reject => true,
            ProxyImpl::Http(_) => false,
            ProxyImpl::Socks5(c) => c.udp,
            ProxyImpl::Shadowsocks(c) => c.udp,
            ProxyImpl::Trojan(c) => c.udp,
            ProxyImpl::Wireguard(_) => true,
            ProxyImpl::Chain(hops) => hops_support_udp(entries, hops@, k, 0),
        }
    } else {
        false
    }
}

/// Whether the hops from position `from` on resolve to proxies before `k`
/// that can carry UDP.
pub open spec fn hops_support_udp(
    entries: Seq<Entry>,
    hops: Seq<GeneralProxy>,
    k: int,
    from: int,
) -> bool
    decreases k, 0int, hops.len() - from,
{
    if 0 <= from < hops.len() {
        let p = resolve(entries, hops[from]).proxy;
        0 <= p < k && supports_udp(entries, p) && hops_support_udp(entries, hops, k, from + 1)
    } else {
        true
    }
}

/// In a table, a reference among the first `bound` entries resolves to a
/// proxy among them.
pub proof fn resolve_stays_below(entries: Seq<Entry>, g: GeneralProxy, bound: int)
    requires
        table_wf(entries),
        g.valid(entries, bound),
    ensures
        0 <= resolve(entries, g).proxy < bound,
        resolve(entries, g).proxy < entries.len(),
        entries[resolve(entries, g).proxy] is Proxy,
    decreases g.index(),
{
    match g {
        GeneralProxy::Single(k) => {},
        GeneralProxy::Group(k) => {
            let grp = entries[k as int]->Group_0;
            assert(entries[k as int].refers_below(entries, k as int));
            let m = grp.members[grp.selected as int];
            assert(m.valid(entries, k as int));
            resolve_stays_below(entries, m, k as int);
        },
    }
}

impl ProxyTable {
    /// Whether the table is well formed.
    pub open spec fn wf(&self) -> bool {
        table_wf(self.entries@)
    }

    /// The index of the entry named `name`.
    pub fn find(&self, name: &str) -> (r: Option<usize>)
        ensures
            match r {
                Some(i) => i < self.entries.len() && self.entries[i as int].name() == name@
                    && forall|j: int| 0 <= j < i ==> self.entries[j].name() != name@,
                None => forall|j: int| 0 <= j < self.entries.len() ==> self.entries[j].name() != name@,
            },
    {
        let mut i: usize = 0;
        while i < self.entries.len()
            invariant
                i <= self.entries.len(),
                forall|j: int| 0 <= j < i ==> self.entries[j].name() != name@,
            decreases self.entries.len() - i,
        {
            let hit = match &self.entries[i] {
                Entry::Proxy(p) => str_eq(p.name.as_str(), name),
                Entry::Group(g) => str_eq(g.name.as_str(), name),
            };
            if hit {
                return Some(i);
            }
            i += 1;
        }
        None
    }

    /// The index of the entry whose name has the UTF-8 bytes `name`.
    pub fn find_bytes(&self, name: &[u8]) -> (r: Option<usize>)
        ensures
            match r {
                Some(i) => i < self.entries.len() && utf8(self.entries[i as int].name()) == name@
                    && forall|j: int| 0 <= j < i ==> utf8(self.entries[j].name()) != name@,
                None => forall|j: int|
                    0 <= j < self.entries.len() ==> utf8(self.entries[j].name()) != name@,
            },
    {
        let mut i: usize = 0;
        while i < self.entries.len()
            invariant
                i <= self.entries.len(),
                forall|j: int| 0 <= j < i ==> utf8(self.entries[j].name()) != name@,
            decreases self.entries.len() - i,
        {
            let hit = match &self.entries[i] {
                Entry::Proxy(p) => crate::text::str_is(p.name.as_str(), name),
                Entry::Group(g) => crate::text::str_is(g.name.as_str(), name),
            };
            if hit {
                return Some(i);
            }
            i += 1;
        }
        None
    }

    /// The reference to the entry at index `i`, by its kind.
    pub fn reference(&self, i: usize) -> (g: GeneralProxy)
        requires
            i < self.entries.len(),
        ensures
            g.index() == i,
            g.valid(self.entries@, i + 1),
    {
        match &self.entries[i] {
            Entry::Proxy(_) => GeneralProxy::Single(i),
            Entry::Group(_) => GeneralProxy::Group(i),
        }
    }

    /// The proxy that `g` resolves to, and the interface to bind to.
    pub fn get_impl(&self, g: GeneralProxy) -> (r: (usize, Option<String>))
        requires
            self.wf(),
            g.valid(self.entries@, self.entries.len() as int),
        ensures
            r.0 == resolve(self.entries@, g).proxy,
            r.1 == resolve(self.entries@, g).iface,
            r.0 < self.entries.len(),
            self.entries[r.0 as int] is Proxy,
        decreases g.index(),
    {
        proof {
            resolve_stays_below(self.entries@, g, self.entries.len() as int);
        }
        match g {
            GeneralProxy::Single(k) => (k, None),
            GeneralProxy::Group(k) => {
                match &self.entries[k] {
                    Entry::Group(grp) => {
                        assert(self.entries[k as int].refers_below(self.entries@, k as int));
                        let m = grp.members[grp.selected];
                        assert(m.valid(self.entries@, k as int));
                        let inner = self.get_impl(m);
                        match &grp.interface {
                            Some(name) => (inner.0, Some(name.clone())),
                            None => inner,
                        }
                    },
                    Entry::Proxy(_) => (REJECT, None),
                }
            },
        }
    }

    /// The chain of outbounds of the chain proxy at index `k`: the transport
    /// of the proxy that each hop resolves to now. There is none where a hop
    /// resolves to a chain, or the proxy is no chain.
    #[verifier::loop_isolation(false)]
    pub fn chain_of(&self, k: usize) -> (r: Option<ChainOutbound>)
        requires
            self.wf(),
            k < self.entries.len(),
        ensures
            match r {
                Some(c) => self.entries[k as int] matches Entry::Proxy(p) && p.imp matches ProxyImpl::Chain(
                    hops,
                ) && c.chains@.len() == hops@.len() && forall|j: int|
                    0 <= j < hops@.len() ==> Some(#[trigger] c.chains@[j]) == hop_type(
                        self.entries@,
                        hops@[j],
                    ),
                None => match self.entries[k as int] {
                    Entry::Proxy(p) => match p.imp {
                        ProxyImpl::Chain(hops) => exists|j: int|
                            0 <= j < hops@.len() && hop_type(self.entries@, #[trigger] hops@[j]) is None,
                        _ => true,
                    },
                    Entry::Group(_) => true,
                },
            },
    {
        match &self.entries[k] {
            Entry::Proxy(p) => match &p.imp {
                ProxyImpl::Chain(hops) => {
                    assert(self.entries[k as int].refers_below(self.entries@, k as int));
                    let mut types: Vec<OutboundType> = Vec::new();
                    let mut j: usize = 0;
                    while j < hops.len()
                        invariant
                            j <= hops@.len(),
                            self.wf(),
                            k < self.entries.len(),
                            forall|i: int|
                                0 <= i < hops@.len() ==> (#[trigger] hops@[i]).valid(self.entries@, k as int),
                            types@.len() == j,
                            forall|i: int|
                                0 <= i < j ==> Some(#[trigger] types@[i]) == hop_type(self.entries@, hops@[i]),
                        decreases hops@.len() - j,
                    {
                        let m = hops[j];
                        assert(m.valid(self.entries@, k as int));
                        let r = self.get_impl(m);
                        let t = match &self.entries[r.0] {
                            Entry::Proxy(q) => q.imp.outbound_type(),
                            Entry::Group(_) => None,
                        };
                        match t {
                            Some(t) => {
                                types.push(t);
                            },
                            None => {
                                assert(hop_type(self.entries@, hops@[j as int]) is None);
                                return None;
                            },
                        }
                        j += 1;
                    }
                    Some(ChainOutbound::new(types))
                },
                _ => None,
            },
            Entry::Group(_) => None,
        }
    }

    /// Whether the proxy at index `k` can carry UDP.
    pub fn support_udp(&self, k: usize) -> (b: bool)
        requires
            self.wf(),
            k < self.entries.len(),
            self.entries[k as int] is Proxy,
        ensures
            b == supports_udp(self.entries@, k as int),
        decreases k,
    {
        match &self.entries[k] {
            Entry::Proxy(p) => match &p.imp {
                ProxyImpl::Direct => true,
                ProxyImpl::Reject => true,
                ProxyImpl::Http(_) => false,
                ProxyImpl::Socks5(c) => c.udp,
                ProxyImpl::Shadowsocks(c) => c.udp,
                ProxyImpl::Trojan(c) => c.udp,
                ProxyImpl::Wireguard(_) => true,
                ProxyImpl::Chain(hops) => {
                    assert(self.entries[k as int].refers_below(self.entries@, k as int));
                    let mut j: usize = hops.len();
                    let mut all: bool = true;
                    while j > 0
                        invariant
                            j <= hops.len(),
                            self.wf(),
                            k < self.entries.len(),
                            forall|i: int| 0 <= i < hops.len() ==> (#[trigger] hops[i]).valid(self.entries@, k as int),
                            all == hops_support_udp(self.entries@, hops@, k as int, j as int),
                        decreases j,
                    {
                        j -= 1;
                        let m = hops[j];
                        assert(m.valid(self.entries@, k as int));
                        proof {
                            resolve_stays_below(self.entries@, m, k as int);
                        }
                        let r = self.get_impl(m);
                        let ok = self.support_udp(r.0);
                        all = ok && all;
                    }
                    all
                },
            },
            Entry::Group(_) => false,
        }
    }
}

} // verus!
