//! Building the proxy table of a configuration.

use crate::addr::{host_port_of, split_host_port, NetworkAddr, NetworkAddrView, SockAddr};
use crate::config::{
    AuthData, LoadedConfig, NamedProxySchema, RawProxyLocalCfg, RawProxyWithName, RawServerAddr,
    RawServerSockAddr, RawState,
};
use crate::groups::{
    edge, groups_defect, has_cycle, is_chain_of, is_cycle, is_group_name, is_selection_of,
    parse_group, refers, settled, text_list, walk_all, GroupEntries, GroupSource, Walk,
};
use crate::proxy::{
    table_wf, CipherKind, Entry, HttpConfig, Proxy, ProxyImpl, ProxyTable, ShadowSocksConfig,
    Socks5Config, TrojanConfig, WireguardConfig,
};
use crate::rule::RuleSet;
use crate::text::{bytes_eq, utf8};
use crate::trusted::{base64_decode, base64_decoded, group_entries, group_list_names};
use vstd::prelude::*;

verus! {

/// Why a configuration was refused.
#[derive(Clone, Copy, Debug, PartialEq, Eq, Structural)]
pub enum BuildError {
    /// A name is given to two proxies, or to a proxy and a group.
    DuplicateName,
    /// A group names a member or a provider that does not exist, or a group
    /// without members.
    UnknownReference,
    /// A group is, through its members, a member of itself.
    CycleDetected,
    /// The rule list does not end with a fallback.
    MissingFallback,
    /// A temporary rule list ends with a fallback.
    UnexpectedFallback,
    /// The filter of a provider is no regular expression.
    BadRegex,
    /// A Shadowsocks proxy names a cipher that is not supported.
    UnsupportedCipher,
    /// A WireGuard key is not 32 bytes in base64.
    BadKeyMaterial,
    /// A WireGuard endpoint is not `host:port`.
    BadEndpoint,
    /// A group is neither a chain nor a selection, or both.
    InvalidGroup,
    /// A rule line cannot be read.
    BadRule,
}

/// The cipher that a name stands for.
pub open spec fn cipher_of(name: Seq<u8>) -> Option<CipherKind> {
    if name == utf8("chacha20-ietf-poly1305"@) {
        Some(CipherKind::Chacha20Poly1305)
    } else if name == utf8("aes-256-gcm"@) {
        Some(CipherKind::Aes256Gcm)
    } else if name == utf8("aes-128-gcm"@) {
        Some(CipherKind::Aes128Gcm)
    } else {
        None
    }
}

/// Reads the name of a cipher.
pub fn parse_cipher(name: &str) -> (r: Option<CipherKind>)
    ensures
        r == cipher_of(utf8(name@)),
{
    let b = name.as_bytes();
    if bytes_eq(b, "chacha20-ietf-poly1305".as_bytes()) {
        Some(CipherKind::Chacha20Poly1305)
    } else if bytes_eq(b, "aes-256-gcm".as_bytes()) {
        Some(CipherKind::Aes256Gcm)
    } else if bytes_eq(b, "aes-128-gcm".as_bytes()) {
        Some(CipherKind::Aes128Gcm)
    } else {
        None
    }
}

/// The 32 bytes of the key that a text holds in base64.
pub open spec fn key_of(text: Seq<char>) -> Option<Seq<u8>> {
    match base64_decoded(utf8(text)) {
        Some(k) => if k.len() == 32 {
            Some(k)
        } else {
            None
        },
        None => None,
    }
}

/// Reads a key of 32 bytes from base64.
pub fn parse_key(text: &str) -> (r: Option<Vec<u8>>)
    ensures
        match r {
            Some(k) => key_of(text@) == Some(k@),
            None => key_of(text@) is None,
        },
{
    match base64_decode(text.as_bytes()) {
        Some(k) => if k.len() == 32 {
            Some(k)
        } else {
            None
        },
        None => None,
    }
}

/// The address of a server with its port.
pub open spec fn server_view(server: RawServerAddr, port: u16) -> NetworkAddrView {
    match server {
        RawServerAddr::IpAddr(ip) => NetworkAddrView::Raw(SockAddr { ip, port }),
        RawServerAddr::DomainName(d) => NetworkAddrView::DomainName { domain_name: d@, port },
    }
}

/// Why a configured proxy is refused, if it is.
pub open spec fn proxy_error(raw: RawProxyLocalCfg) -> Option<BuildError> {
    match raw {
        RawProxyLocalCfg::Shadowsocks { cipher, .. } => if cipher_of(utf8(cipher@)) is None {
            Some(BuildError::UnsupportedCipher)
        } else {
            None
        },
        RawProxyLocalCfg::Wireguard { endpoint, private_key, public_key, preshared_key, .. } => {
            if endpoint matches RawServerSockAddr::Domain(a) && host_port_of(utf8(a@)) is None {
                Some(BuildError::BadEndpoint)
            } else if key_of(private_key@) is None || key_of(public_key@) is None || (
            preshared_key matches Some(k) && key_of(k@) is None) {
                Some(BuildError::BadKeyMaterial)
            } else {
                None
            }
        },
        _ => None,
    }
}

/// Whether `endpoint` is the address that the configured endpoint denotes.
pub open spec fn endpoint_compiled(raw: RawServerSockAddr, endpoint: NetworkAddr) -> bool {
    match raw {
        RawServerSockAddr::Ip(a) => endpoint@ == NetworkAddrView::Raw(a),
        RawServerSockAddr::Domain(text) => host_port_of(utf8(text@)) matches Some(hp) && endpoint@
            matches NetworkAddrView::DomainName { domain_name, port } && utf8(domain_name) == hp.0
            && port == hp.1,
    }
}

/// Whether `imp` is what the configured proxy compiles to: every field is
/// carried over, the cipher is read from its name, the keys are decoded, and
/// each name server is given port 53.
pub open spec fn proxy_compiled(raw: RawProxyLocalCfg, imp: ProxyImpl) -> bool {
    match raw {
        RawProxyLocalCfg::Http { server, port, auth } => imp matches ProxyImpl::Http(c)
            && c.server_addr@ == server_view(server, port) && c.auth == auth,
        RawProxyLocalCfg::Socks5 { server, port, auth, udp } => imp matches ProxyImpl::Socks5(c)
            && c.server_addr@ == server_view(server, port) && c.auth == auth && c.udp == udp,
        RawProxyLocalCfg::Shadowsocks { server, port, password, cipher, udp } => imp matches ProxyImpl::Shadowsocks(
            c,
        ) && c.server_addr@ == server_view(server, port) && c.password == password && Some(
            c.cipher_kind,
        ) == cipher_of(utf8(cipher@)) && c.udp == udp,
        RawProxyLocalCfg::Trojan {
            server,
            port,
            sni,
            password,
            skip_cert_verify,
            websocket_path,
            udp,
        } => imp matches ProxyImpl::Trojan(c) && c.server_addr@ == server_view(server, port)
            && c.password == password && c.sni == sni && c.skip_cert_verify == skip_cert_verify
            && c.websocket_path == websocket_path && c.udp == udp,
        RawProxyLocalCfg::Wireguard {
            local_addr,
            private_key,
            public_key,
            endpoint,
            mtu,
            preshared_key,
            keepalive,
            dns,
            reserved,
        } => imp matches ProxyImpl::Wireguard(c) && c.ip_addr == local_addr && Some(c.private_key@)
            == key_of(private_key@) && Some(c.public_key@) == key_of(public_key@)
            && endpoint_compiled(endpoint, c.endpoint) && c.mtu == mtu && match preshared_key {
            Some(k) => c.preshared_key matches Some(psk) && Some(psk@) == key_of(k@),
            None => c.preshared_key is None,
        } && c.keepalive == keepalive && c.dns@ == Seq::new(
            dns@.len(),
            |i: int| SockAddr { ip: dns[i], port: 53 },
        ) && c.reserved == reserved,
    }
}

/// A copy of optional credentials.
fn copy_auth(auth: &Option<AuthData>) -> (r: Option<AuthData>)
    ensures
        r == *auth,
{
    match auth {
        Some(a) => Some(AuthData { username: a.username.clone(), password: a.password.clone() }),
        None => None,
    }
}

/// A copy of an optional text.
pub fn copy_text(text: &Option<String>) -> (r: Option<String>)
    ensures
        r == *text,
{
    match text {
        Some(t) => Some(t.clone()),
        None => None,
    }
}

/// Checks a configured proxy and compiles it.
pub fn compile_proxy(raw: &RawProxyLocalCfg) -> (r: Result<ProxyImpl, BuildError>)
    ensures
        match r {
            Ok(imp) => proxy_error(*raw) is None && proxy_compiled(*raw, imp),
            Err(e) => proxy_error(*raw) == Some(e),
        },
{
    match raw {
        RawProxyLocalCfg::Http { server, port, auth } => Ok(
            ProxyImpl::Http(
                HttpConfig { server_addr: NetworkAddr::from(server, *port), auth: copy_auth(auth) },
            ),
        ),
        RawProxyLocalCfg::Socks5 { server, port, auth, udp } => Ok(
            ProxyImpl::Socks5(
                Socks5Config {
                    server_addr: NetworkAddr::from(server, *port),
                    auth: copy_auth(auth),
                    udp: *udp,
                },
            ),
        ),
        RawProxyLocalCfg::Shadowsocks { server, port, password, cipher, udp } => {
            match parse_cipher(cipher.as_str()) {
                Some(cipher_kind) => Ok(
                    ProxyImpl::Shadowsocks(
                        ShadowSocksConfig {
                            server_addr: NetworkAddr::from(server, *port),
                            password: password.clone(),
                            cipher_kind,
                            udp: *udp,
                        },
                    ),
                ),
                None => Err(BuildError::UnsupportedCipher),
            }
        },
        RawProxyLocalCfg::Trojan {
            server,
            port,
            sni,
            password,
            skip_cert_verify,
            websocket_path,
            udp,
        } => Ok(
            ProxyImpl::Trojan(
                TrojanConfig {
                    server_addr: NetworkAddr::from(server, *port),
                    password: password.clone(),
                    sni: sni.clone(),
                    skip_cert_verify: *skip_cert_verify,
                    websocket_path: copy_text(websocket_path),
                    udp: *udp,
                },
            ),
        ),
        RawProxyLocalCfg::Wireguard {
            local_addr,
            private_key,
            public_key,
            endpoint,
            mtu,
            preshared_key,
            keepalive,
            dns,
            reserved,
        } => {
            let endpoint = match endpoint {
                RawServerSockAddr::Ip(a) => NetworkAddr::Raw(*a),
                RawServerSockAddr::Domain(text) => match split_host_port(text.as_str()) {
                    Some((host, port)) => NetworkAddr::DomainName { domain_name: host, port },
                    None => {
                        return Err(BuildError::BadEndpoint);
                    },
                },
            };
            let private_key = match parse_key(private_key.as_str()) {
                Some(k) => k,
                None => {
                    return Err(BuildError::BadKeyMaterial);
                },
            };
            let public_key = match parse_key(public_key.as_str()) {
                Some(k) => k,
                None => {
                    return Err(BuildError::BadKeyMaterial);
                },
            };
            let preshared_key = match preshared_key {
                Some(text) => match parse_key(text.as_str()) {
                    Some(k) => Some(k),
                    None => {
                        return Err(BuildError::BadKeyMaterial);
                    },
                },
                None => None,
            };
            let mut servers: Vec<SockAddr> = Vec::new();
            let mut i: usize = 0;
            while i < dns.len()
                invariant
                    i <= dns.len(),
                    servers@ == Seq::new(i as nat, |j: int| SockAddr { ip: dns[j], port: 53 }),
                decreases dns.len() - i,
            {
                servers.push(SockAddr { ip: dns[i], port: 53 });
                assert(servers@ =~= Seq::new((i + 1) as nat, |j: int| SockAddr { ip: dns[j], port: 53 }));
                i += 1;
            }
            Ok(
                ProxyImpl::Wireguard(
                    WireguardConfig {
                        ip_addr: *local_addr,
                        private_key,
                        public_key,
                        endpoint,
                        mtu: *mtu,
                        preshared_key,
                        keepalive: *keepalive,
                        dns: servers,
                        reserved: *reserved,
                    },
                ),
            )
        },
    }
}

/// The names of the entries.
pub open spec fn entry_names(entries: Seq<Entry>) -> Seq<Seq<char>> {
    Seq::new(entries.len(), |i: int| entries[i].name())
}

/// Why the configured proxies from position `from` on are refused, if they
/// are, beside entries of the names `taken`: the first of them that has a
/// name already taken, or that is refused by itself, decides.
pub open spec fn proxies_error(taken: Seq<Seq<char>>, list: Seq<RawProxyWithName>, from: int) -> Option<
    BuildError,
>
    decreases list.len() - from,
{
    if 0 <= from < list.len() {
        if taken.contains(list[from].name@) {
            Some(BuildError::DuplicateName)
        } else if proxy_error(list[from].cfg) is Some {
            proxy_error(list[from].cfg)
        } else {
            proxies_error(taken.push(list[from].name@), list, from + 1)
        }
    } else {
        None
    }
}

/// Whether the entry is the configured proxy, compiled, under its name.
pub open spec fn is_compiled(e: Entry, item: RawProxyWithName) -> bool {
    e matches Entry::Proxy(p) && p.name@ == item.name@ && proxy_compiled(item.cfg, p.imp)
}

/// Whether `entries` is `before` followed by the proxies of `list`, in
/// order, each compiled.
pub open spec fn proxies_added(before: Seq<Entry>, list: Seq<RawProxyWithName>, entries: Seq<Entry>) -> bool {
    &&& entries.len() == before.len() + list.len()
    &&& entries.subrange(0, before.len() as int) == before
    &&& forall|i: int|
        0 <= i < list.len() ==> is_compiled(#[trigger] entries[before.len() + i], list[i])
}

/// A table stays one when a proxy that is no chain is added under a new
/// name.
pub proof fn table_wf_push_proxy(entries: Seq<Entry>, p: Proxy)
    requires
        table_wf(entries),
        !(p.imp is Chain),
        forall|i: int| 0 <= i < entries.len() ==> entries[i].name() != p.name@,
    ensures
        table_wf(entries.push(Entry::Proxy(p))),
{
    let after = entries.push(Entry::Proxy(p));
    assert forall|i: int| 0 <= i < after.len() implies (#[trigger] after[i]).refers_below(after, i) by {
        if i < entries.len() {
            assert(entries[i].refers_below(entries, i));
            match entries[i] {
                Entry::Proxy(q) => match q.imp {
                    ProxyImpl::Chain(hops) => {
                        assert forall|j: int| 0 <= j < hops.len() implies (#[trigger] hops[j]).valid(
                            after,
                            i,
                        ) by {
                            assert(hops[j].valid(entries, i));
                        }
                    },
                    _ => {},
                },
                Entry::Group(g) => {
                    assert forall|j: int| 0 <= j < g.members.len() implies (
                    #[trigger] g.members[j]).valid(after, i) by {
                        assert(g.members[j].valid(entries, i));
                    }
                },
            }
        }
    }
}

/// Adds the configured proxies to the table, in order.
#[verifier::loop_isolation(false)]
pub fn parse_proxies(table: &mut ProxyTable, list: &Vec<RawProxyWithName>) -> (r: Result<(), BuildError>)
    requires
        old(table).wf(),
    ensures
        final(table).wf(),
        match r {
            Ok(()) => proxies_error(entry_names(old(table).entries@), list@, 0) is None
                && proxies_added(old(table).entries@, list@, final(table).entries@),
            Err(e) => proxies_error(entry_names(old(table).entries@), list@, 0) == Some(e),
        },
{
    let ghost before = table.entries@;
    let mut i: usize = 0;
    assert(before.subrange(0, before.len() as int) =~= before);
    while i < list.len()
        invariant
            i <= list.len(),
            table.wf(),
            proxies_error(entry_names(before), list@, 0) == proxies_error(
                entry_names(table.entries@),
                list@,
                i as int,
            ),
            proxies_added(before, list@.subrange(0, i as int), table.entries@),
        decreases list.len() - i,
    {
        let item = &list[i];
        let ghost names = entry_names(table.entries@);
        match table.find(item.name.as_str()) {
            Some(k) => {
                assert(names[k as int] == item.name@);
                return Err(BuildError::DuplicateName);
            },
            None => {},
        }
        assert(!names.contains(item.name@));
        let imp = match compile_proxy(&item.cfg) {
            Ok(imp) => imp,
            Err(e) => {
                return Err(e);
            },
        };
        let p = Proxy { name: item.name.clone(), imp };
        proof {
            table_wf_push_proxy(table.entries@, p);
            assert(entry_names(table.entries@.push(Entry::Proxy(p))) =~= names.push(item.name@));
        }
        let ghost prev = table.entries@;
        table.entries.push(Entry::Proxy(p));
        proof {
            let now = table.entries@;
            let part = list@.subrange(0, i + 1);
            assert(now.subrange(0, before.len() as int) =~= prev.subrange(0, before.len() as int));
            assert forall|j: int| 0 <= j < part.len() implies is_compiled(
                #[trigger] now[before.len() + j],
                part[j],
            ) by {
                if j < i {
                    assert(list@.subrange(0, i as int)[j] == list@[j]);
                    assert(now[before.len() + j] == prev[before.len() + j]);
                }
            }
        }
        i += 1;
    }
    assert(list@.subrange(0, list.len() as int) =~= list@);
    Ok(())
}

/// The names of the configured proxies.
pub open spec fn proxy_names(list: Seq<RawProxyWithName>) -> Seq<Seq<char>> {
    Seq::new(list.len(), |i: int| list[i].name@)
}

/// The lists of configured proxies in the order in which they are added:
/// the local ones, then those of each provider.
pub open spec fn proxy_lists(cfg: LoadedConfig) -> Seq<Seq<RawProxyWithName>> {
    seq![cfg.config.proxy_local@] + Seq::new(
        cfg.proxy_schema@.len(),
        |s: int| cfg.proxy_schema@[s].schema.proxies@,
    )
}

/// The names in the table when the first `n` lists were added: `DIRECT`,
/// `REJECT` and those of their proxies.
pub open spec fn names_after(lists: Seq<Seq<RawProxyWithName>>, n: int) -> Seq<Seq<char>>
    decreases n,
{
    if n <= 0 {
        seq!["DIRECT"@, "REJECT"@]
    } else {
        names_after(lists, n - 1) + proxy_names(lists[n - 1])
    }
}

/// Why the first `n` lists of proxies are refused, if they are.
pub open spec fn lists_error(lists: Seq<Seq<RawProxyWithName>>, n: int) -> Option<BuildError>
    decreases n,
{
    if n <= 0 {
        None
    } else if lists_error(lists, n - 1) is Some {
        lists_error(lists, n - 1)
    } else {
        proxies_error(names_after(lists, n - 1), lists[n - 1], 0)
    }
}

/// What builds a dispatching: the table of proxies and groups, the rule sets
/// that rules may refer to, and the names of the configured groups in their
/// order.
#[derive(Debug)]
pub struct DispatchingBuilder {
    pub table: ProxyTable,
    pub rulesets: Vec<RuleSet>,
    pub group_order: Vec<String>,
}

/// Whether the builder is what the configuration asks for, or the error is
/// one that the configuration shows.
///
/// The table holds `DIRECT`, `REJECT` and the configured proxies, each
/// compiled, in the order of their lists; behind them it holds only entries
/// of groups, and every configured group is settled in it. A configuration
/// is refused for the first defect among its proxies; where they have none,
/// for the first defect that the walk through its groups meets, which is a
/// defect that its groups show.
pub open spec fn built(cfg: LoadedConfig, ruleset: Vec<RuleSet>, r: Result<DispatchingBuilder, BuildError>) -> bool {
    let lists = proxy_lists(cfg);
    let groups = group_entries(cfg.config.proxy_group);
    let base = names_after(lists, lists.len() as int);
    let walk = Walk { groups, base: base.len() as int, schema: cfg.proxy_schema@ };
    match r {
        Ok(b) => {
            let entries = b.table.entries@;
            &&& b.wf()
            &&& lists_error(lists, lists.len() as int) is None
            &&& walk_all(walk, base, 0) == Ok::<Seq<Seq<char>>, BuildError>(entry_names(entries))
            &&& base.len() <= entries.len()
            &&& forall|l: int, i: int|
                0 <= l < lists.len() && 0 <= i < lists[l].len() ==> is_compiled(
                    #[trigger] entries[names_after(lists, l).len() + i],
                    #[trigger] lists[l][i],
                )
            &&& forall|gi: int|
                0 <= gi < groups.len() ==> #[trigger] settled(
                    entries,
                    base.len() as int,
                    groups,
                    cfg.state,
                    cfg.proxy_schema@,
                    gi,
                )
            &&& forall|k: int|
                base.len() <= k < entries.len() ==> is_group_name(groups, (#[trigger] entries[k]).name())
            &&& b.group_order@.len() == groups.len()
            &&& forall|i: int| 0 <= i < groups.len() ==> (#[trigger] b.group_order@[i])@ == groups[i].0
            &&& b.rulesets == ruleset
        },
        Err(e) => match lists_error(lists, lists.len() as int) {
            Some(first) => e == first,
            None => walk_all(walk, base, 0) == Err::<Seq<Seq<char>>, BuildError>(e) && groups_defect(
                e,
                base,
                groups,
                cfg.proxy_schema@,
            ),
        },
    }
}

impl DispatchingBuilder {
    /// Whether the builder's table is well formed.
    pub open spec fn wf(&self) -> bool {
        self.table.wf()
    }

    /// The builder that knows only the proxies `DIRECT` and `REJECT`.
    pub fn empty() -> (b: DispatchingBuilder)
        ensures
            b.wf(),
            b.table.entries@.len() == 2,
            entry_names(b.table.entries@) == names_after(Seq::empty(), 0),
            b.rulesets@.len() == 0,
            b.group_order@.len() == 0,
    {
        let mut entries: Vec<Entry> = Vec::new();
        entries.push(Entry::Proxy(Proxy { name: "DIRECT".to_owned(), imp: ProxyImpl::Direct }));
        entries.push(Entry::Proxy(Proxy { name: "REJECT".to_owned(), imp: ProxyImpl::Reject }));
        proof {
            reveal_strlit("DIRECT");
            reveal_strlit("REJECT");
            assert("DIRECT"@ != "REJECT"@) by {
                assert("DIRECT"@[0] == 'D');
                assert("REJECT"@[0] == 'R');
            }
            assert(entry_names(entries@) =~= seq!["DIRECT"@, "REJECT"@]);
        }
        DispatchingBuilder {
            table: ProxyTable { entries },
            rulesets: Vec::new(),
            group_order: Vec::new(),
        }
    }

    /// Builds the table of a configuration: the proxies first, then the
    /// groups, each after the groups that it names.
    #[verifier::loop_isolation(false)]
    pub fn new(loaded_config: &LoadedConfig, ruleset: Vec<RuleSet>) -> (r: Result<
        DispatchingBuilder,
        BuildError,
    >)
        ensures
            built(*loaded_config, ruleset, r),
            r is Ok ==> !has_cycle(group_entries(loaded_config.config.proxy_group)),
    {
        let ghost lists = proxy_lists(*loaded_config);
        let ghost groups = group_entries(loaded_config.config.proxy_group);
        let mut builder = Self::empty();
        let mut table = builder.table;
        let ghost start = table.entries@;
        assert(lists[0] == loaded_config.config.proxy_local@);
        assert(lists_error(lists, 0) is None);
        assert(names_after(lists, 0) == entry_names(start));
        match parse_proxies(&mut table, &loaded_config.config.proxy_local) {
            Ok(()) => {},
            Err(e) => {
                proof {
                    lists_error_stays(lists, 1, lists.len() as int);
                }
                return Err(e);
            },
        }
        let schema = &loaded_config.proxy_schema;
        let mut s: usize = 0;
        proof {
            added_names(start, lists[0], table.entries@);
            assert forall|k: int| 0 <= k < table.entries@.len() implies (#[trigger] table.entries@[k]) is Proxy by {
                if k < 2 {
                    assert(table.entries@.subrange(0, 2)[k] == start[k]);
                } else {
                    assert(is_compiled(table.entries@[2 + (k - 2)], lists[0][k - 2]));
                }
            }
        }
        while s < schema.len()
            invariant
                s <= schema.len(),
                table.wf(),
                lists_error(lists, s + 1) is None,
                entry_names(table.entries@) == names_after(lists, s + 1),
                forall|k: int| 0 <= k < table.entries@.len() ==> (#[trigger] table.entries@[k]) is Proxy,
                forall|l: int, i: int|
                    0 <= l < s + 1 && 0 <= i < lists[l].len() ==> is_compiled(
                        #[trigger] table.entries@[names_after(lists, l).len() + i],
                        #[trigger] lists[l][i],
                    ),
            decreases schema.len() - s,
        {
            let ghost before = table.entries@;
            assert(lists[s + 1] == schema@[s as int].schema.proxies@);
            match parse_proxies(&mut table, &schema[s].schema.proxies) {
                Ok(()) => {},
                Err(e) => {
                    proof {
                        lists_error_stays(lists, s + 2, lists.len() as int);
                    }
                    return Err(e);
                },
            }
            proof {
                added_names(before, lists[s + 1], table.entries@);
                assert forall|k: int| 0 <= k < table.entries@.len() implies (#[trigger] table.entries@[k]) is Proxy by {
                    if k < before.len() {
                        assert(table.entries@.subrange(0, before.len() as int)[k] == before[k]);
                    } else {
                        assert(is_compiled(
                            table.entries@[before.len() + (k - before.len())],
                            lists[s + 1][k - before.len()],
                        ));
                    }
                }
                assert forall|l: int, i: int|
                    0 <= l < s + 2 && 0 <= i < lists[l].len() implies is_compiled(
                    #[trigger] table.entries@[names_after(lists, l).len() + i],
                    #[trigger] lists[l][i],
                ) by {
                    if l < s + 1 {
                        names_after_len(lists, l, s + 1);
                        let k = names_after(lists, l).len() + i;
                        assert(table.entries@.subrange(0, before.len() as int)[k] == before[k]);
                    }
                }
            }
            s += 1;
        }
        assert(lists.len() == schema.len() + 1);
        let names = group_list_names(&loaded_config.config.proxy_group);
        let order = group_list_names(&loaded_config.config.proxy_group);
        let mut on_path: Vec<bool> = vec![false; names.len()];
        let base = table.entries.len();
        let ghost base_names = entry_names(table.entries@);
        let ghost filled = table.entries@;
        let src = GroupSource {
            names: &names,
            list: &loaded_config.config.proxy_group,
            state: &loaded_config.state,
            schema,
            base,
            base_names: Ghost(base_names),
        };
        proof {
            assert forall|sx: int, q: int|
                0 <= sx < schema@.len() && 0 <= q < schema@[sx].schema.proxies@.len() implies base_names.contains(
                (#[trigger] schema@[sx].schema.proxies@[q]).name@,
            ) by {
                names_after_len(lists, sx + 1, lists.len() as int);
                assert(lists[sx + 1][q] == schema@[sx].schema.proxies@[q]);
                let k = names_after(lists, sx + 1).len() + q;
                assert(is_compiled(table.entries@[k], lists[sx + 1][q]));
                assert(base_names[k] == schema@[sx].schema.proxies@[q].name@);
            }
            assert forall|i: int, j: int| 0 <= i < j < groups.len() implies (#[trigger] groups[i]).0 != (
            #[trigger] groups[j]).0 by {
                assert(names@[i]@ != names@[j]@);
            }
            assert(src.holds(table.entries@));
        }
        let ghost walk = src.walk();
        let mut gi: usize = 0;
        while gi < names.len()
            invariant
                gi <= names.len(),
                src.wf(),
                src.holds(table.entries@),
                walk_all(walk, base_names, 0) == walk_all(walk, entry_names(table.entries@), gi as int),
                crate::groups::extends(filled, table.entries@),
                on_path@.len() == names.len(),
                forall|x: int| 0 <= x < on_path@.len() ==> !#[trigger] on_path@[x],
                forall|g: int| 0 <= g < gi ==> #[trigger] src.settled(table.entries@, g),
            decreases names.len() - gi,
        {
            let ghost before = table.entries@;
            assert(crate::groups::path_ok(groups, on_path@, Seq::<int>::empty()));
            assert(on_path@ =~= Seq::new(groups.len(), |i: int| false));
            match parse_group(&mut table, &src, gi, &mut on_path, false, Ghost(Seq::empty())) {
                Ok(()) => {},
                Err(e) => {
                    return Err(e);
                },
            }
            proof {
                assert forall|g: int| 0 <= g < gi + 1 implies #[trigger] src.settled(table.entries@, g) by {
                    if g < gi {
                        assert(src.settled(before, g));
                        crate::groups::settled_stays(
                            before,
                            table.entries@,
                            base as int,
                            groups,
                            loaded_config.state,
                            schema@,
                            g,
                        );
                    }
                }
            }
            gi += 1;
        }
        proof {
            assert forall|k: int| base <= k < table.entries@.len() implies is_group_name(
                groups,
                (#[trigger] table.entries@[k]).name(),
            ) by {
                assert(src.owned(table.entries@, k));
            }
            assert forall|l: int, i: int|
                0 <= l < lists.len() && 0 <= i < lists[l].len() implies is_compiled(
                #[trigger] table.entries@[names_after(lists, l).len() + i],
                #[trigger] lists[l][i],
            ) by {
                names_after_len(lists, l, lists.len() as int);
                let k = names_after(lists, l).len() + i;
                assert(table.entries@[k] == filled[k]);
            }
            assert forall|g: int| 0 <= g < groups.len() implies #[trigger] settled(
                table.entries@,
                base as int,
                groups,
                loaded_config.state,
                schema@,
                g,
            ) by {
                assert(src.settled(table.entries@, g));
            }
            acyclic_when_settled(table.entries@, base as int, groups, loaded_config.state, schema@);
        }
        builder.table = table;
        builder.rulesets = ruleset;
        builder.group_order = order;
        Ok(builder)
    }
}

/// The names of a table after proxies were added to it.
pub proof fn added_names(before: Seq<Entry>, list: Seq<RawProxyWithName>, after: Seq<Entry>)
    requires
        proxies_added(before, list, after),
    ensures
        entry_names(after) == entry_names(before) + proxy_names(list),
{
    let joined = entry_names(before) + proxy_names(list);
    assert forall|k: int| 0 <= k < after.len() implies entry_names(after)[k] == joined[k] by {
        if k < before.len() {
            assert(after.subrange(0, before.len() as int)[k] == before[k]);
        } else {
            assert(is_compiled(after[before.len() + (k - before.len())], list[k - before.len()]));
        }
    }
    assert(entry_names(after) =~= joined);
}

/// The first error among the lists stays the first when more lists follow.
pub proof fn lists_error_stays(lists: Seq<Seq<RawProxyWithName>>, n: int, m: int)
    requires
        0 < n <= m,
        lists_error(lists, n) is Some,
    ensures
        lists_error(lists, m) == lists_error(lists, n),
    decreases m - n,
{
    if n < m {
        lists_error_stays(lists, n, m - 1);
    }
}

/// The names of a list lie, in the table's names, behind those of the lists
/// before it.
pub proof fn names_after_len(lists: Seq<Seq<RawProxyWithName>>, l: int, m: int)
    requires
        0 <= l < m,
    ensures
        names_after(lists, l).len() + lists[l].len() <= names_after(lists, m).len(),
    decreases m - l,
{
    if l + 1 < m {
        names_after_len(lists, l, m - 1);
    }
}

/// The index of the entry that has the name of the group at `gi`, in a table
/// in which the group is settled and has a hop or a member.
pub open spec fn is_entry_of(entries: Seq<Entry>, groups: GroupEntries, gi: int, k: int) -> bool {
    0 <= k < entries.len() && entries[k].name() == groups[gi].0
}

/// In a table in which the group at `gi` is settled, the entry of a group
/// that it names comes before its own.
pub proof fn edge_descends(
    entries: Seq<Entry>,
    base: int,
    groups: GroupEntries,
    state: RawState,
    schema: Seq<NamedProxySchema>,
    gi: int,
    pi: int,
) -> (r: (int, int))
    requires
        table_wf(entries),
        0 <= base,
        settled(entries, base, groups, state, schema, gi),
        edge(groups, gi, pi),
    ensures
        is_entry_of(entries, groups, gi, r.0),
        is_entry_of(entries, groups, pi, r.1),
        r.1 < r.0,
{
    let name = groups[gi].0;
    let g = groups[gi].1;
    let refs = g.direct_refs();
    let j = choose|j: int| 0 <= j < refs.len() && refs[j] == groups[pi].0;
    if g.chains is Some {
        let k = choose|k: int| base <= k < entries.len() && is_chain_of(entries, #[trigger] entries[k], name, g);
        let hops = entries[k]->Proxy_0.imp->Chain_0;
        let h = hops@[refs.len() - 1 - j];
        assert(refers(entries, h, text_list(g.chains)[text_list(g.chains).len() - 1 - (refs.len() - 1 - j)]));
        assert(entries[k].refers_below(entries, k));
        assert(h.valid(entries, k));
        (k, h.index())
    } else {
        let m = g.member_names(schema);
        assert(m[j] == refs[j]);
        let k = choose|k: int|
            base <= k < entries.len() && is_selection_of(entries, #[trigger] entries[k], name, g, state, schema);
        let grp = entries[k]->Group_0;
        let h = grp.members@[j];
        assert(refers(entries, h, m[j]));
        assert(entries[k].refers_below(entries, k));
        assert(h.valid(entries, k));
        (k, h.index())
    }
}

/// Along groups of which each names the next, the entries come ever earlier
/// in the table.
proof fn path_descends(
    entries: Seq<Entry>,
    base: int,
    groups: GroupEntries,
    state: RawState,
    schema: Seq<NamedProxySchema>,
    cycle: Seq<int>,
    n: int,
) -> (r: (int, int))
    requires
        table_wf(entries),
        0 <= base,
        forall|gi: int| 0 <= gi < groups.len() ==> #[trigger] settled(entries, base, groups, state, schema, gi),
        is_cycle(groups, cycle),
        0 <= n < cycle.len(),
    ensures
        is_entry_of(entries, groups, cycle[0], r.0),
        is_entry_of(entries, groups, cycle[n], r.1),
        r.1 + n <= r.0,
    decreases n,
{
    if n == 0 {
        let d = if cycle.len() == 1 {
            assert(edge(groups, cycle.last(), cycle[0]));
            edge_descends(entries, base, groups, state, schema, cycle[0], cycle[0])
        } else {
            assert(edge(groups, cycle[0], cycle[1]));
            edge_descends(entries, base, groups, state, schema, cycle[0], cycle[1])
        };
        (d.0, d.0)
    } else {
        let before = path_descends(entries, base, groups, state, schema, cycle, n - 1);
        assert(edge(groups, cycle[n - 1], cycle[n]));
        let d = edge_descends(entries, base, groups, state, schema, cycle[n - 1], cycle[n]);
        assert(d.0 == before.1);
        (before.0, d.1)
    }
}

/// Where every group is settled in a table, no group is, through its
/// members, a member of itself: the entry of a group comes after the entries
/// of its members.
pub proof fn acyclic_when_settled(
    entries: Seq<Entry>,
    base: int,
    groups: GroupEntries,
    state: RawState,
    schema: Seq<NamedProxySchema>,
)
    requires
        table_wf(entries),
        0 <= base,
        forall|gi: int| 0 <= gi < groups.len() ==> #[trigger] settled(entries, base, groups, state, schema, gi),
    ensures
        !has_cycle(groups),
{
    if has_cycle(groups) {
        let cycle = choose|cycle: Seq<int>| is_cycle(groups, cycle);
        let whole = path_descends(entries, base, groups, state, schema, cycle, cycle.len() - 1);
        let back = edge_descends(entries, base, groups, state, schema, cycle.last(), cycle[0]);
        assert(back.0 == whole.1);
        assert(back.1 == whole.0);
    }
}

/// A configuration in which a group is, through its members, a member of
/// itself is refused; and where its proxies and groups show no other
/// defect, it is refused for the cycle.
pub proof fn cycle_rejected(cfg: LoadedConfig, ruleset: Vec<RuleSet>, r: Result<DispatchingBuilder, BuildError>)
    requires
        built(cfg, ruleset, r),
        has_cycle(group_entries(cfg.config.proxy_group)),
    ensures
        r is Err,
        lists_error(proxy_lists(cfg), proxy_lists(cfg).len() as int) is None && (forall|e: BuildError|
            e != BuildError::CycleDetected ==> !groups_defect(
                e,
                names_after(proxy_lists(cfg), proxy_lists(cfg).len() as int),
                group_entries(cfg.config.proxy_group),
                cfg.proxy_schema@,
            )) ==> r == Err::<DispatchingBuilder, BuildError>(BuildError::CycleDetected),
{
    match r {
        Ok(b) => {
            let lists = proxy_lists(cfg);
            let base = names_after(lists, lists.len() as int);
            acyclic_when_settled(
                b.table.entries@,
                base.len() as int,
                group_entries(cfg.config.proxy_group),
                cfg.state,
                cfg.proxy_schema@,
            );
        },
        Err(_) => {},
    }
}

/// A configuration whose proxies and groups show no defect is built.
pub proof fn sound_config_is_built(cfg: LoadedConfig, ruleset: Vec<RuleSet>, r: Result<DispatchingBuilder, BuildError>)
    requires
        built(cfg, ruleset, r),
        lists_error(proxy_lists(cfg), proxy_lists(cfg).len() as int) is None,
        forall|e: BuildError|
            !groups_defect(
                e,
                names_after(proxy_lists(cfg), proxy_lists(cfg).len() as int),
                group_entries(cfg.config.proxy_group),
                cfg.proxy_schema@,
            ),
    ensures
        r is Ok,
{
}

} // verus!
