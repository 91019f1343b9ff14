use boltconn::addr::{IpAddress, NetworkAddr, NetworkType, SockAddr};
use boltconn::builder::{parse_cipher, parse_key, BuildError, DispatchingBuilder};
use boltconn::chain::{Carrier, ChainOutbound, HopCall, OutboundType, TcpTransferType, UdpTransferType};
use boltconn::compile::{parse_condition, parse_kind, Kind};
use boltconn::config::{
    AuthData, GroupSelection, LoadedConfig, NamedProxySchema, ProxySchema, RawProxyGroupCfg,
    RawProxyLocalCfg, RawProxyProviderOption, RawProxyWithName, RawRootCfg, RawServerAddr,
    RawServerSockAddr, RawState, RawSubDispatch, RuleAction, RuleConfigLine, RuleSchema,
};
use boltconn::engine::{Dispatching, SelectError};
use boltconn::proxy::{CipherKind, Entry, GeneralProxy, ProxyImpl, DIRECT, REJECT};
use boltconn::rule::{Condition, ConnInfo, InboundInfo, ProcessInfo, RuleSet};
use linked_hash_map::LinkedHashMap;

fn ip(a: u8, b: u8, c: u8, d: u8) -> IpAddress {
    IpAddress::from_octets(a, b, c, d)
}

fn http(name: &str) -> RawProxyWithName {
    RawProxyWithName {
        name: name.to_string(),
        cfg: RawProxyLocalCfg::Http {
            server: RawServerAddr::IpAddr(ip(192, 0, 2, 1)),
            port: 8080,
            auth: None,
        },
    }
}

fn socks(name: &str, udp: bool) -> RawProxyWithName {
    RawProxyWithName {
        name: name.to_string(),
        cfg: RawProxyLocalCfg::Socks5 {
            server: RawServerAddr::DomainName("socks.example".to_string()),
            port: 1080,
            auth: Some(AuthData { username: "u".to_string(), password: "p".to_string() }),
            udp,
        },
    }
}

fn ss(name: &str, cipher: &str) -> RawProxyWithName {
    RawProxyWithName {
        name: name.to_string(),
        cfg: RawProxyLocalCfg::Shadowsocks {
            server: RawServerAddr::IpAddr(ip(192, 0, 2, 2)),
            port: 8388,
            password: "secret".to_string(),
            cipher: cipher.to_string(),
            udp: true,
        },
    }
}

const KEY: &str = "AAECAwQFBgcICQoLDA0ODxAREhMUFRYXGBkaGxwdHh8=";

fn wireguard(name: &str, private_key: &str, endpoint: RawServerSockAddr) -> RawProxyWithName {
    RawProxyWithName {
        name: name.to_string(),
        cfg: RawProxyLocalCfg::Wireguard {
            local_addr: ip(10, 0, 0, 2),
            private_key: private_key.to_string(),
            public_key: KEY.to_string(),
            endpoint,
            mtu: 1420,
            preshared_key: None,
            keepalive: Some(25),
            dns: vec![ip(1, 1, 1, 1)],
            reserved: None,
        },
    }
}

fn selection(proxies: &[&str]) -> RawProxyGroupCfg {
    RawProxyGroupCfg {
        proxies: Some(proxies.iter().map(|p| p.to_string()).collect()),
        providers: None,
        chains: None,
        interface: None,
    }
}

fn chain(hops: &[&str]) -> RawProxyGroupCfg {
    RawProxyGroupCfg {
        proxies: None,
        providers: None,
        chains: Some(hops.iter().map(|p| p.to_string()).collect()),
        interface: None,
    }
}

fn simple(lines: &[&str]) -> Vec<RuleConfigLine> {
    lines.iter().map(|l| RuleConfigLine::Simple(l.to_string())).collect()
}

fn config(
    proxies: Vec<RawProxyWithName>,
    groups: Vec<(&str, RawProxyGroupCfg)>,
    rules: Vec<RuleConfigLine>,
) -> LoadedConfig {
    let mut proxy_group = LinkedHashMap::new();
    for (name, group) in groups {
        proxy_group.insert(name.to_string(), group);
    }
    LoadedConfig {
        config: RawRootCfg { proxy_local: proxies, proxy_group, rule_local: rules },
        state: RawState { group_selection: vec![], temporary_list: None },
        proxy_schema: vec![],
    }
}

fn build(cfg: &LoadedConfig) -> Result<Dispatching, BuildError> {
    DispatchingBuilder::new(cfg, vec![])?.build(cfg)
}

fn flow(dst: NetworkAddr, kind: NetworkType, process: Option<&str>) -> ConnInfo {
    ConnInfo {
        src: SockAddr { ip: ip(192, 168, 1, 5), port: 40000 },
        dst,
        inbound: InboundInfo::Tun,
        resolved_dst: None,
        connection_type: kind,
        process_info: process.map(|name| ProcessInfo {
            pid: 7,
            path: format!("/usr/bin/{}", name),
            name: name.to_string(),
        }),
    }
}

fn domain(name: &str, port: u16) -> NetworkAddr {
    NetworkAddr::DomainName { domain_name: name.to_string(), port }
}

fn raw(a: u8, b: u8, c: u8, d: u8, port: u16) -> NetworkAddr {
    NetworkAddr::Raw(SockAddr { ip: ip(a, b, c, d), port })
}

fn names(d: &DispatchingBuilder) -> Vec<String> {
    d.table
        .entries
        .iter()
        .map(|e| match e {
            Entry::Proxy(p) => p.name.clone(),
            Entry::Group(g) => g.name.clone(),
        })
        .collect()
}

#[test]
fn direct_tcp() {
    let cfg = config(vec![], vec![], simple(&["DOMAIN, example.com, DIRECT", "FALLBACK, REJECT"]));
    let d = build(&cfg).unwrap();
    let mut info = flow(domain("example.com", 80), NetworkType::Tcp, None);
    let dec = d.matches(&mut info, None);
    assert_eq!(dec.proxy, DIRECT);
    assert_eq!(dec.iface, None);
    assert!(matches!(d.proxy_impl(&dec), ProxyImpl::Direct));
    let kind = d.proxy_impl(&dec).outbound_type().unwrap();
    assert_eq!(ChainOutbound::new(vec![kind]).spawn_tcp(), vec![HopCall::Tcp]);
    let mut other = flow(domain("example.org", 80), NetworkType::Tcp, None);
    let dec = d.matches(&mut other, None);
    assert_eq!(dec.proxy, REJECT);
    assert!(matches!(d.proxy_impl(&dec), ProxyImpl::Reject));
}

#[test]
fn temporary_overlay() {
    let cfg = config(vec![], vec![], simple(&["FALLBACK, REJECT"]));
    let mut d = build(&cfg).unwrap();
    let mut info = flow(raw(10, 1, 2, 3, 22), NetworkType::Tcp, None);
    assert_eq!(d.matches(&mut info, None).proxy, REJECT);
    d.update_temporary_list(&simple(&["IP-CIDR, 10.0.0.0/8, DIRECT"])).unwrap();
    assert_eq!(d.matches(&mut info, None).proxy, DIRECT);
    let mut outside = flow(raw(11, 1, 2, 3, 22), NetworkType::Tcp, None);
    assert_eq!(d.matches(&mut outside, None).proxy, REJECT);
    d.update_temporary_list(&[]).unwrap();
    assert_eq!(d.matches(&mut info, None).proxy, REJECT);
}

#[test]
fn overlay_precedes_main_rules() {
    let cfg = config(
        vec![http("web")],
        vec![],
        simple(&["DOMAIN, a.com, web", "FALLBACK, REJECT"]),
    );
    let mut d = build(&cfg).unwrap();
    let mut info = flow(domain("a.com", 443), NetworkType::Tcp, None);
    assert_eq!(d.matches(&mut info, None).proxy, 2);
    d.update_temporary_list(&simple(&["DOMAIN-SUFFIX, com, DIRECT"])).unwrap();
    assert_eq!(d.matches(&mut info, None).proxy, DIRECT);
}

#[test]
fn temporary_list_with_fallback_is_refused() {
    let cfg = config(vec![], vec![], simple(&["FALLBACK, REJECT"]));
    let mut d = build(&cfg).unwrap();
    d.update_temporary_list(&simple(&["DOMAIN, a.com, DIRECT"])).unwrap();
    let r = d.update_temporary_list(&simple(&["DOMAIN, b.com, DIRECT", "FALLBACK, DIRECT"]));
    assert_eq!(r, Err(BuildError::UnexpectedFallback));
    assert_eq!(d.update_temporary_list(&simple(&["NONSENSE"])), Err(BuildError::BadRule));
    let mut info = flow(domain("a.com", 80), NetworkType::Tcp, None);
    assert_eq!(d.matches(&mut info, None).proxy, DIRECT);
}

#[test]
fn sub_dispatch() {
    let rules = vec![
        RuleConfigLine::Complex(RuleAction::SubDispatch(RawSubDispatch {
            matches: "PROCESS-NAME, curl".to_string(),
            subrules: simple(&["DOMAIN, a.com, DIRECT", "FALLBACK, REJECT"]),
        })),
        RuleConfigLine::Simple("FALLBACK, DIRECT".to_string()),
    ];
    let d = build(&config(vec![], vec![], rules)).unwrap();
    let mut a = flow(domain("a.com", 80), NetworkType::Tcp, Some("curl"));
    assert_eq!(d.matches(&mut a, None).proxy, DIRECT);
    let mut b = flow(domain("b.com", 80), NetworkType::Tcp, Some("curl"));
    assert_eq!(d.matches(&mut b, None).proxy, REJECT);
    let mut c = flow(domain("a.com", 80), NetworkType::Tcp, Some("wget"));
    assert_eq!(d.matches(&mut c, None).proxy, DIRECT);
    let mut e = flow(domain("b.com", 80), NetworkType::Tcp, None);
    assert_eq!(d.matches(&mut e, None).proxy, DIRECT);
}

#[test]
fn sub_dispatch_needs_a_fallback() {
    let rules = vec![
        RuleConfigLine::Complex(RuleAction::SubDispatch(RawSubDispatch {
            matches: "PROCESS-NAME, curl".to_string(),
            subrules: simple(&["DOMAIN, a.com, DIRECT"]),
        })),
        RuleConfigLine::Simple("FALLBACK, DIRECT".to_string()),
    ];
    assert_eq!(build(&config(vec![], vec![], rules)).err(), Some(BuildError::MissingFallback));
    let rules = vec![
        RuleConfigLine::Complex(RuleAction::SubDispatch(RawSubDispatch {
            matches: "PROCESS-NAME, curl, DIRECT".to_string(),
            subrules: simple(&["FALLBACK, DIRECT"]),
        })),
        RuleConfigLine::Simple("FALLBACK, DIRECT".to_string()),
    ];
    assert_eq!(build(&config(vec![], vec![], rules)).err(), Some(BuildError::BadRule));
}

#[test]
fn udp_on_non_udp_proxy() {
    let cfg = config(vec![http("web")], vec![], simple(&["FALLBACK, web"]));
    let d = build(&cfg).unwrap();
    let mut tcp = flow(raw(8, 8, 8, 8, 53), NetworkType::Tcp, None);
    let dec = d.matches(&mut tcp, None);
    assert_eq!(dec.proxy, 2);
    assert!(matches!(d.proxy_impl(&dec), ProxyImpl::Http(_)));
    let mut udp = flow(raw(8, 8, 8, 8, 53), NetworkType::Udp, None);
    let dec = d.matches(&mut udp, None);
    assert_eq!(dec.proxy, REJECT);
    assert_eq!(dec.iface, None);
    assert!(matches!(d.proxy_impl(&dec), ProxyImpl::Reject));
}

#[test]
fn udp_support_follows_the_configuration() {
    let cfg = config(
        vec![socks("with", true), socks("without", false), ss("shadow", "aes-128-gcm")],
        vec![("both", chain(&["with", "shadow"])), ("lame", chain(&["with", "without"]))],
        simple(&["FALLBACK, DIRECT"]),
    );
    let b = DispatchingBuilder::new(&cfg, vec![]).unwrap();
    assert_eq!(names(&b), ["DIRECT", "REJECT", "with", "without", "shadow", "both", "lame"]);
    assert!(b.table.support_udp(0));
    assert!(b.table.support_udp(1));
    assert!(b.table.support_udp(2));
    assert!(!b.table.support_udp(3));
    assert!(b.table.support_udp(4));
    assert!(b.table.support_udp(5));
    assert!(!b.table.support_udp(6));
}

#[test]
fn missing_fallback() {
    let cfg = config(vec![], vec![], simple(&["DOMAIN, example.com, DIRECT"]));
    assert_eq!(build(&cfg).err(), Some(BuildError::MissingFallback));
    assert_eq!(build(&config(vec![], vec![], vec![])).err(), Some(BuildError::MissingFallback));
    let cfg = config(vec![], vec![], simple(&["FALLBACK, DIRECT", "DOMAIN, a.com, DIRECT"]));
    assert_eq!(build(&cfg).err(), Some(BuildError::BadRule));
}

#[test]
fn fallback_decides_every_flow() {
    let cfg = config(vec![], vec![], simple(&["DST-PORT, 22, REJECT", "FALLBACK, DIRECT"]));
    let d = build(&cfg).unwrap();
    for (dst, want) in [
        (raw(1, 2, 3, 4, 22), REJECT),
        (raw(1, 2, 3, 4, 23), DIRECT),
        (domain("example.com", 22), REJECT),
        (domain("", 0), DIRECT),
    ] {
        for kind in [NetworkType::Tcp, NetworkType::Udp] {
            let mut info = flow(
                match &dst {
                    NetworkAddr::Raw(s) => NetworkAddr::Raw(*s),
                    NetworkAddr::DomainName { domain_name, port } => domain(domain_name, *port),
                },
                kind,
                None,
            );
            let dec = d.matches(&mut info, None);
            assert_eq!(dec.proxy, want);
            assert!(dec.proxy < d.templist_builder.table.entries.len());
        }
    }
}

#[test]
fn same_flow_same_decision() {
    let cfg = config(
        vec![http("web")],
        vec![],
        simple(&["DOMAIN-KEYWORD, corp, web", "PROCESS-NAME, curl, REJECT", "FALLBACK, DIRECT"]),
    );
    let d = build(&cfg).unwrap();
    let mut a = flow(domain("intra.corp.example", 443), NetworkType::Tcp, Some("curl"));
    let mut b = flow(domain("intra.corp.example", 443), NetworkType::Tcp, Some("curl"));
    let first = d.matches(&mut a, None);
    let second = d.matches(&mut b, None);
    let again = d.matches(&mut a, None);
    assert_eq!(first.proxy, 2);
    assert_eq!(second.proxy, first.proxy);
    assert_eq!(again.proxy, first.proxy);
    assert_eq!(second.iface, first.iface);
}

#[test]
fn conditions_of_every_kind() {
    let cfg = config(
        vec![http("a"), http("b"), http("c"), http("d"), http("e"), http("f"), http("g")],
        vec![],
        simple(&[
            "DOMAIN, example.com, a",
            "DOMAIN-SUFFIX, example.org, b",
            "DOMAIN-KEYWORD, video, c",
            "IP-CIDR, 172.16.0.0/12, d",
            "DST-PORT, 853, e",
            "PROCESS-NAME, ssh, f",
            "INBOUND, alice/http, g",
            "FALLBACK, DIRECT",
        ]),
    );
    let d = build(&cfg).unwrap();
    let decide = |mut info: ConnInfo| d.matches(&mut info, None).proxy;
    assert_eq!(decide(flow(domain("example.com", 80), NetworkType::Tcp, None)), 2);
    assert_eq!(decide(flow(domain("www.example.com", 80), NetworkType::Tcp, None)), DIRECT);
    assert_eq!(decide(flow(domain("example.org", 80), NetworkType::Tcp, None)), 3);
    assert_eq!(decide(flow(domain("www.example.org", 80), NetworkType::Tcp, None)), 3);
    assert_eq!(decide(flow(domain("badexample.org", 80), NetworkType::Tcp, None)), DIRECT);
    assert_eq!(decide(flow(domain("cdn.video.net", 80), NetworkType::Tcp, None)), 4);
    assert_eq!(decide(flow(raw(172, 16, 0, 1, 80), NetworkType::Tcp, None)), 5);
    assert_eq!(decide(flow(raw(172, 31, 255, 255, 80), NetworkType::Tcp, None)), 5);
    assert_eq!(decide(flow(raw(172, 32, 0, 0, 80), NetworkType::Tcp, None)), DIRECT);
    assert_eq!(decide(flow(raw(172, 15, 255, 255, 80), NetworkType::Tcp, None)), DIRECT);
    assert_eq!(decide(flow(raw(9, 9, 9, 9, 853), NetworkType::Tcp, None)), 6);
    assert_eq!(decide(flow(raw(9, 9, 9, 9, 80), NetworkType::Tcp, Some("ssh"))), 7);
    assert_eq!(decide(flow(raw(9, 9, 9, 9, 80), NetworkType::Tcp, Some("sshd"))), DIRECT);
    let mut by_alice = flow(raw(9, 9, 9, 9, 80), NetworkType::Tcp, None);
    by_alice.inbound = InboundInfo::Http(Some("alice".to_string()));
    assert_eq!(decide(by_alice), 8);
    let mut by_bob = flow(raw(9, 9, 9, 9, 80), NetworkType::Tcp, None);
    by_bob.inbound = InboundInfo::Http(Some("bob".to_string()));
    assert_eq!(decide(by_bob), DIRECT);
}

#[test]
fn cidr_edges() {
    let cfg = config(
        vec![],
        vec![],
        simple(&["IP-CIDR, 1.2.3.4/32, REJECT", "IP-CIDR, 0.0.0.0/0, DIRECT", "FALLBACK, REJECT"]),
    );
    let d = build(&cfg).unwrap();
    let decide = |mut info: ConnInfo| d.matches(&mut info, None).proxy;
    assert_eq!(decide(flow(raw(1, 2, 3, 4, 1), NetworkType::Tcp, None)), REJECT);
    assert_eq!(decide(flow(raw(1, 2, 3, 5, 1), NetworkType::Tcp, None)), DIRECT);
    assert_eq!(decide(flow(raw(255, 255, 255, 255, 1), NetworkType::Tcp, None)), DIRECT);
    assert_eq!(decide(flow(domain("unresolved.example", 1), NetworkType::Tcp, None)), REJECT);
    let v6 = NetworkAddr::Raw(SockAddr { ip: IpAddress::V6(1), port: 1 });
    assert_eq!(decide(flow(v6, NetworkType::Tcp, None)), REJECT);
    for bad in ["IP-CIDR, 1.2.3.4/33, DIRECT", "IP-CIDR, 1.2.3/8, DIRECT", "IP-CIDR, 256.0.0.0/8, DIRECT", "IP-CIDR, 1.2.3.4, DIRECT", "DST-PORT, 65536, DIRECT", "DST-PORT, , DIRECT"] {
        let cfg = config(vec![], vec![], simple(&[bad, "FALLBACK, REJECT"]));
        assert_eq!(build(&cfg).err(), Some(BuildError::BadRule), "{}", bad);
    }
}

#[test]
fn local_resolve_writes_the_answer() {
    let rules = vec![
        RuleConfigLine::Simple("IP-CIDR, 10.0.0.0/8, REJECT".to_string()),
        RuleConfigLine::Complex(RuleAction::LocalResolve),
        RuleConfigLine::Simple("IP-CIDR, 10.0.0.0/8, DIRECT".to_string()),
        RuleConfigLine::Simple("FALLBACK, REJECT".to_string()),
    ];
    let cfg = config(vec![http("web")], vec![], rules);
    let d = build(&cfg).unwrap();
    let mut info = flow(domain("intranet.example", 8443), NetworkType::Tcp, None);
    let dec = d.matches(&mut info, Some(ip(10, 9, 8, 7)));
    assert_eq!(dec.proxy, DIRECT);
    assert_eq!(info.resolved_dst, Some(SockAddr { ip: ip(10, 9, 8, 7), port: 8443 }));
    let dec = d.matches(&mut info, Some(ip(10, 9, 8, 7)));
    assert_eq!(dec.proxy, REJECT);
    let mut unknown = flow(domain("intranet.example", 8443), NetworkType::Tcp, None);
    assert_eq!(d.matches(&mut unknown, None).proxy, REJECT);
    assert_eq!(unknown.resolved_dst, None);
    let mut addr = flow(raw(10, 0, 0, 1, 1), NetworkType::Tcp, None);
    assert_eq!(d.matches(&mut addr, Some(ip(1, 1, 1, 1))).proxy, REJECT);
    assert_eq!(addr.resolved_dst, None);
}

#[test]
fn groups_in_order_of_their_members() {
    let cfg = config(
        vec![http("web"), ss("shadow", "aes-256-gcm")],
        vec![
            ("outer", selection(&["inner", "web"])),
            ("inner", selection(&["shadow", "DIRECT"])),
            ("hops", chain(&["web", "inner"])),
        ],
        simple(&["FALLBACK, outer"]),
    );
    let b = DispatchingBuilder::new(&cfg, vec![]).unwrap();
    assert_eq!(names(&b), ["DIRECT", "REJECT", "web", "shadow", "inner", "outer", "hops"]);
    match &b.table.entries[5] {
        Entry::Group(g) => {
            assert_eq!(g.members, vec![GeneralProxy::Group(4), GeneralProxy::Single(2)]);
            assert_eq!(g.selected, 0);
        }
        Entry::Proxy(_) => panic!("outer is a group"),
    }
    match &b.table.entries[6] {
        Entry::Proxy(p) => match &p.imp {
            ProxyImpl::Chain(hops) => {
                assert_eq!(hops, &vec![GeneralProxy::Group(4), GeneralProxy::Single(2)]);
            }
            _ => panic!("hops is a chain"),
        },
        Entry::Group(_) => panic!("hops is stored as a proxy"),
    }
    assert_eq!(b.group_order, ["outer", "inner", "hops"]);
    let d = b.build(&cfg).unwrap();
    let listed: Vec<&str> = d.get_group_list().iter().map(|g| g.name.as_str()).collect();
    assert_eq!(listed, ["outer", "inner"]);
    let mut info = flow(raw(1, 1, 1, 1, 443), NetworkType::Tcp, None);
    assert_eq!(d.matches(&mut info, None).proxy, 3);
}

#[test]
fn stored_selection_is_applied() {
    let mut cfg = config(
        vec![http("web"), ss("shadow", "aes-256-gcm")],
        vec![("pick", selection(&["web", "shadow", "DIRECT"])), ("other", selection(&["web", "shadow"]))],
        simple(&["DOMAIN, o.example, other", "FALLBACK, pick"]),
    );
    cfg.state.group_selection = vec![
        GroupSelection { group: "pick".to_string(), proxy: "shadow".to_string() },
        GroupSelection { group: "other".to_string(), proxy: "gone".to_string() },
    ];
    let mut d = build(&cfg).unwrap();
    let mut info = flow(raw(1, 1, 1, 1, 443), NetworkType::Tcp, None);
    assert_eq!(d.matches(&mut info, None).proxy, 3);
    let mut o = flow(domain("o.example", 443), NetworkType::Tcp, None);
    assert_eq!(d.matches(&mut o, None).proxy, 2);
    assert_eq!(d.set_group_selection("pick", "DIRECT"), Ok(()));
    assert_eq!(d.matches(&mut info, None).proxy, DIRECT);
    assert_eq!(d.set_group_selection("pick", "nobody"), Err(SelectError::ProxyNotFound));
    assert_eq!(d.set_group_selection("nothing", "web"), Err(SelectError::GroupNotFound));
    assert_eq!(d.set_group_selection("web", "web"), Err(SelectError::GroupNotFound));
    assert_eq!(d.matches(&mut info, None).proxy, DIRECT);
}

#[test]
fn interface_of_the_outermost_group() {
    let mut inner = selection(&["web"]);
    inner.interface = Some("eth1".to_string());
    let mut outer = selection(&["inner"]);
    outer.interface = Some("wlan0".to_string());
    let plain = selection(&["inner"]);
    let cfg = config(
        vec![http("web")],
        vec![("inner", inner), ("outer", outer), ("plain", plain)],
        simple(&["DST-PORT, 1, outer", "DST-PORT, 2, plain", "DST-PORT, 3, web", "FALLBACK, inner"]),
    );
    let d = build(&cfg).unwrap();
    let decide = |port: u16| {
        let mut info = flow(raw(1, 1, 1, 1, port), NetworkType::Tcp, None);
        d.matches(&mut info, None)
    };
    assert_eq!(decide(1).iface.as_deref(), Some("wlan0"));
    assert_eq!(decide(2).iface.as_deref(), Some("eth1"));
    assert_eq!(decide(3).iface, None);
    assert_eq!(decide(4).iface.as_deref(), Some("eth1"));
    assert_eq!(decide(1).proxy, 2);
}

#[test]
fn cycle_is_rejected() {
    let cfg = config(
        vec![http("web")],
        vec![("a", selection(&["b"])), ("b", selection(&["c", "web"])), ("c", selection(&["a"]))],
        simple(&["FALLBACK, DIRECT"]),
    );
    assert_eq!(DispatchingBuilder::new(&cfg, vec![]).err(), Some(BuildError::CycleDetected));
    let itself = config(vec![], vec![("a", selection(&["a"]))], simple(&["FALLBACK, DIRECT"]));
    assert_eq!(DispatchingBuilder::new(&itself, vec![]).err(), Some(BuildError::CycleDetected));
    let chains = config(
        vec![],
        vec![("x", chain(&["DIRECT", "y"])), ("y", chain(&["x"]))],
        simple(&["FALLBACK, DIRECT"]),
    );
    assert_eq!(DispatchingBuilder::new(&chains, vec![]).err(), Some(BuildError::CycleDetected));
}

#[test]
fn group_defects() {
    let unknown = config(vec![], vec![("a", selection(&["nobody"]))], simple(&["FALLBACK, DIRECT"]));
    assert_eq!(DispatchingBuilder::new(&unknown, vec![]).err(), Some(BuildError::UnknownReference));
    let clash = config(vec![http("web")], vec![("web", selection(&["DIRECT"]))], simple(&["FALLBACK, DIRECT"]));
    assert_eq!(DispatchingBuilder::new(&clash, vec![]).err(), Some(BuildError::DuplicateName));
    let both = RawProxyGroupCfg {
        proxies: Some(vec!["DIRECT".to_string()]),
        providers: None,
        chains: Some(vec!["DIRECT".to_string()]),
        interface: None,
    };
    let invalid = config(vec![], vec![("a", both)], simple(&["FALLBACK, DIRECT"]));
    assert_eq!(DispatchingBuilder::new(&invalid, vec![]).err(), Some(BuildError::InvalidGroup));
    let neither = RawProxyGroupCfg { proxies: None, providers: None, chains: None, interface: None };
    let invalid = config(vec![], vec![("a", neither)], simple(&["FALLBACK, DIRECT"]));
    assert_eq!(DispatchingBuilder::new(&invalid, vec![]).err(), Some(BuildError::InvalidGroup));
    let empty = config(
        vec![],
        vec![("nothing", selection(&[])), ("a", selection(&["nothing"]))],
        simple(&["FALLBACK, DIRECT"]),
    );
    assert_eq!(DispatchingBuilder::new(&empty, vec![]).err(), Some(BuildError::UnknownReference));
    let alone = config(vec![], vec![("nothing", selection(&[]))], simple(&["FALLBACK, DIRECT"]));
    let b = DispatchingBuilder::new(&alone, vec![]).unwrap();
    assert_eq!(names(&b), ["DIRECT", "REJECT"]);
}

#[test]
fn proxy_defects() {
    let twice = config(vec![http("web"), http("web")], vec![], simple(&["FALLBACK, DIRECT"]));
    assert_eq!(DispatchingBuilder::new(&twice, vec![]).err(), Some(BuildError::DuplicateName));
    let reserved = config(vec![http("DIRECT")], vec![], simple(&["FALLBACK, DIRECT"]));
    assert_eq!(DispatchingBuilder::new(&reserved, vec![]).err(), Some(BuildError::DuplicateName));
    let cipher = config(vec![ss("s", "rc4-md5")], vec![], simple(&["FALLBACK, DIRECT"]));
    assert_eq!(DispatchingBuilder::new(&cipher, vec![]).err(), Some(BuildError::UnsupportedCipher));
    let key = config(
        vec![wireguard("wg", "AAEC", RawServerSockAddr::Domain("wg.example:51820".to_string()))],
        vec![],
        simple(&["FALLBACK, DIRECT"]),
    );
    assert_eq!(DispatchingBuilder::new(&key, vec![]).err(), Some(BuildError::BadKeyMaterial));
    let not_base64 = config(
        vec![wireguard("wg", "***", RawServerSockAddr::Domain("wg.example:51820".to_string()))],
        vec![],
        simple(&["FALLBACK, DIRECT"]),
    );
    assert_eq!(DispatchingBuilder::new(&not_base64, vec![]).err(), Some(BuildError::BadKeyMaterial));
    let endpoint = config(
        vec![wireguard("wg", KEY, RawServerSockAddr::Domain("wg.example".to_string()))],
        vec![],
        simple(&["FALLBACK, DIRECT"]),
    );
    assert_eq!(DispatchingBuilder::new(&endpoint, vec![]).err(), Some(BuildError::BadEndpoint));
    let first = config(vec![ss("s", "rc4-md5"), http("DIRECT")], vec![], simple(&["FALLBACK, DIRECT"]));
    assert_eq!(DispatchingBuilder::new(&first, vec![]).err(), Some(BuildError::UnsupportedCipher));
}

#[test]
fn wireguard_is_compiled() {
    let cfg = config(
        vec![wireguard("wg", KEY, RawServerSockAddr::Domain("wg.example:51820".to_string()))],
        vec![],
        simple(&["FALLBACK, wg"]),
    );
    let b = DispatchingBuilder::new(&cfg, vec![]).unwrap();
    match &b.table.entries[2] {
        Entry::Proxy(p) => match &p.imp {
            ProxyImpl::Wireguard(c) => {
                assert_eq!(c.private_key, (0u8..32).collect::<Vec<u8>>());
                assert_eq!(c.public_key, (0u8..32).collect::<Vec<u8>>());
                assert_eq!(c.endpoint, domain("wg.example", 51820));
                assert_eq!(c.dns, vec![SockAddr { ip: ip(1, 1, 1, 1), port: 53 }]);
                assert_eq!(c.mtu, 1420);
                assert_eq!(c.keepalive, Some(25));
                assert_eq!(c.preshared_key, None);
            }
            _ => panic!("wg is a WireGuard proxy"),
        },
        Entry::Group(_) => panic!("wg is a proxy"),
    }
}

#[test]
fn keys_and_ciphers() {
    assert_eq!(parse_key(KEY), Some((0u8..32).collect::<Vec<u8>>()));
    assert_eq!(parse_key("AAECAw=="), None);
    assert_eq!(parse_key(""), None);
    assert_eq!(parse_key("not base64!"), None);
    assert_eq!(parse_cipher("chacha20-ietf-poly1305"), Some(CipherKind::Chacha20Poly1305));
    assert_eq!(parse_cipher("aes-256-gcm"), Some(CipherKind::Aes256Gcm));
    assert_eq!(parse_cipher("aes-128-gcm"), Some(CipherKind::Aes128Gcm));
    assert_eq!(parse_cipher("AES-128-GCM"), None);
}

fn provider(name: &str, proxies: &[&str]) -> NamedProxySchema {
    NamedProxySchema {
        name: name.to_string(),
        schema: ProxySchema { proxies: proxies.iter().map(|p| http(p)).collect() },
    }
}

fn from_providers(providers: Vec<RawProxyProviderOption>) -> RawProxyGroupCfg {
    RawProxyGroupCfg { proxies: None, providers: Some(providers), chains: None, interface: None }
}

#[test]
fn provider_filter_selects_by_regex() {
    let mut cfg = config(
        vec![],
        vec![
            (
                "asia",
                from_providers(vec![RawProxyProviderOption::Filter {
                    name: "remote".to_string(),
                    filter: "^(hk|jp)-".to_string(),
                }]),
            ),
            ("all", from_providers(vec![RawProxyProviderOption::Name("remote".to_string())])),
        ],
        simple(&["FALLBACK, asia"]),
    );
    cfg.proxy_schema = vec![provider("remote", &["us-1", "hk-1", "jp-1", "xhk-2"])];
    cfg.state.group_selection =
        vec![GroupSelection { group: "asia".to_string(), proxy: "jp-1".to_string() }];
    let b = DispatchingBuilder::new(&cfg, vec![]).unwrap();
    assert_eq!(names(&b), ["DIRECT", "REJECT", "us-1", "hk-1", "jp-1", "xhk-2", "asia", "all"]);
    match &b.table.entries[6] {
        Entry::Group(g) => {
            assert_eq!(g.members, vec![GeneralProxy::Single(3), GeneralProxy::Single(4)]);
            assert_eq!(g.selected, 1);
        }
        Entry::Proxy(_) => panic!("asia is a group"),
    }
    match &b.table.entries[7] {
        Entry::Group(g) => {
            assert_eq!(g.members.len(), 4);
            assert_eq!(g.selected, 0);
        }
        Entry::Proxy(_) => panic!("all is a group"),
    }
}

#[test]
fn provider_defects() {
    let mut bad = config(
        vec![],
        vec![(
            "g",
            from_providers(vec![RawProxyProviderOption::Filter {
                name: "remote".to_string(),
                filter: "(unclosed".to_string(),
            }]),
        )],
        simple(&["FALLBACK, DIRECT"]),
    );
    bad.proxy_schema = vec![provider("remote", &["a"])];
    assert_eq!(DispatchingBuilder::new(&bad, vec![]).err(), Some(BuildError::BadRegex));
    let missing = config(
        vec![],
        vec![("g", from_providers(vec![RawProxyProviderOption::Name("remote".to_string())]))],
        simple(&["FALLBACK, DIRECT"]),
    );
    assert_eq!(DispatchingBuilder::new(&missing, vec![]).err(), Some(BuildError::UnknownReference));
    let mut nothing = config(
        vec![],
        vec![(
            "g",
            from_providers(vec![RawProxyProviderOption::Filter {
                name: "remote".to_string(),
                filter: "^zz".to_string(),
            }]),
        )],
        simple(&["FALLBACK, DIRECT"]),
    );
    nothing.proxy_schema = vec![provider("remote", &["a", "b"])];
    let b = DispatchingBuilder::new(&nothing, vec![]).unwrap();
    assert_eq!(names(&b), ["DIRECT", "REJECT", "a", "b"]);
}

#[test]
fn rule_sets() {
    let schema = RuleSchema {
        payload: vec!["DOMAIN-SUFFIX, ads.example".to_string(), "DST-PORT , 9999".to_string()],
    };
    let set = RuleSet::new("ads", &schema).unwrap();
    assert_eq!(set.name, "ads");
    assert_eq!(set.conditions.len(), 2);
    assert!(RuleSet::new("bad", &RuleSchema { payload: vec!["DOMAIN".to_string()] }).is_none());
    assert!(RuleSet::new("nested", &RuleSchema { payload: vec!["RULE-SET, ads".to_string()] }).is_none());
    let cfg = config(vec![], vec![], simple(&["RULE-SET, ads, REJECT", "FALLBACK, DIRECT"]));
    let d = DispatchingBuilder::new(&cfg, vec![set]).unwrap().build(&cfg).unwrap();
    let decide = |mut info: ConnInfo| d.matches(&mut info, None).proxy;
    assert_eq!(decide(flow(domain("x.ads.example", 80), NetworkType::Tcp, None)), REJECT);
    assert_eq!(decide(flow(raw(1, 1, 1, 1, 9999), NetworkType::Tcp, None)), REJECT);
    assert_eq!(decide(flow(domain("example.com", 80), NetworkType::Tcp, None)), DIRECT);
    assert_eq!(build(&cfg).err(), Some(BuildError::BadRule));
}

#[test]
fn filter_dispatching() {
    let b = DispatchingBuilder::empty();
    let rules = vec!["DOMAIN-SUFFIX, example.com".to_string(), "DST-PORT, 443".to_string()];
    let d = b.build_filter(&rules, vec![]).unwrap();
    let decide = |mut info: ConnInfo| d.matches(&mut info, None).proxy;
    assert_eq!(decide(flow(domain("www.example.com", 80), NetworkType::Tcp, None)), DIRECT);
    assert_eq!(decide(flow(raw(1, 1, 1, 1, 443), NetworkType::Tcp, None)), DIRECT);
    assert_eq!(decide(flow(raw(1, 1, 1, 1, 80), NetworkType::Tcp, None)), REJECT);
    let none = DispatchingBuilder::empty().build_filter(&[], vec![]).unwrap();
    let mut info = flow(raw(1, 1, 1, 1, 80), NetworkType::Tcp, None);
    assert_eq!(none.matches(&mut info, None).proxy, REJECT);
    let bad = vec!["DOMAIN-SUFFIX, example.com, DIRECT".to_string()];
    assert_eq!(DispatchingBuilder::empty().build_filter(&bad, vec![]).err(), Some(BuildError::BadRule));
}

#[test]
fn empty_builder_knows_direct_and_reject() {
    let b = DispatchingBuilder::empty();
    assert_eq!(names(&b), ["DIRECT", "REJECT"]);
    assert_eq!(b.table.find("DIRECT"), Some(DIRECT));
    assert_eq!(b.table.find("REJECT"), Some(REJECT));
    assert_eq!(b.table.find("direct"), None);
    let t = b.build_temporary_list(&simple(&["DOMAIN, a.com, DIRECT"])).unwrap();
    assert_eq!(t.rules.len(), 1);
    assert_eq!(
        b.build_temporary_list(&simple(&["FALLBACK, DIRECT"])).err(),
        Some(BuildError::UnexpectedFallback)
    );
    let (rules, fallback) = b.build_rules(&simple(&["FALLBACK, REJECT"])).unwrap();
    assert!(rules.is_empty());
    assert_eq!(fallback, GeneralProxy::Single(REJECT));
    let (rules, fallback) = b.build_rules_loosely(&simple(&["DOMAIN, a.com, REJECT"])).unwrap();
    assert_eq!(rules.len(), 1);
    assert_eq!(fallback, None);
}

#[test]
fn kinds_and_conditions() {
    assert_eq!(parse_kind(b"DOMAIN"), Some(Kind::Domain));
    assert_eq!(parse_kind(b"RULE-SET"), Some(Kind::RuleSet));
    assert_eq!(parse_kind(b"domain"), None);
    assert_eq!(parse_kind(b"FALLBACK"), None);
    match parse_condition(b"IP-CIDR", b"192.168.0.0/16", &vec![]) {
        Some(Condition::IpCidr { net, prefix }) => {
            assert_eq!(net, 0xc0a8_0000);
            assert_eq!(prefix, 16);
        }
        _ => panic!("a network"),
    }
    match parse_condition(b"INBOUND", b"socks5", &vec![]) {
        Some(Condition::Inbound(i)) => assert_eq!(i, InboundInfo::Socks5Any),
        _ => panic!("an inbound"),
    }
    assert!(parse_condition(b"INBOUND", b"carrier-pigeon", &vec![]).is_none());
    assert!(parse_condition(b"INBOUND", &[0xff, b'/', b'h', b't', b't', b'p'], &vec![]).is_none());
    assert!(parse_condition(b"RULE-SET", b"ads", &vec![]).is_none());
}

#[test]
fn chain_of_a_table() {
    let cfg = config(
        vec![socks("s", true), ss("shadow", "aes-128-gcm")],
        vec![("pick", selection(&["shadow", "s"])), ("hops", chain(&["s", "pick"]))],
        simple(&["FALLBACK, hops"]),
    );
    let d = build(&cfg).unwrap();
    let mut info = flow(raw(1, 1, 1, 1, 443), NetworkType::Tcp, None);
    let dec = d.matches(&mut info, None);
    assert_eq!(dec.proxy, 5);
    assert!(d.proxy_impl(&dec).outbound_type().is_none());
    let chain = d.templist_builder.table.chain_of(dec.proxy).unwrap();
    let plain = OutboundType { tcp: TcpTransferType::PlainTcp, udp: UdpTransferType::PlainUdp };
    assert_eq!(chain.chains, vec![plain, plain]);
    assert_eq!(
        chain.spawn(true),
        vec![HopCall::TcpWithOutbound { outbound: Carrier::Tcp }, HopCall::Tcp]
    );
    assert!(d.templist_builder.table.chain_of(2).is_none());
}
