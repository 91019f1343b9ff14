use boltconn::addr::{parse_cidr, parse_ipv4, split_host_port, IpAddress, NetworkAddr, SockAddr};
use boltconn::buf_pool::{PktBufHandle, PktBufPool};
use boltconn::chain::{
    Carrier, ChainError, ChainOutbound, HopCall, OutboundType, TcpTransferType, UdpTransferType,
    CONNECTOR_CAPACITY,
};
use boltconn::config::{RawProxyGroupCfg, RuleProvider};
use boltconn::connector::{AbortHandle, AbortState, Connector, ConnectorError};
use boltconn::proxy::{CipherKind, ShadowSocksConfig};
use boltconn::shadowsocks::{SSOutbound, SsError};
use boltconn::smol::{Incoming, SmolStack, StackError, TcpConnTask, UdpConnTask, Want};
use boltconn::startup::{
    join, kind_of_rewrite, mapping_rewrite, parse_config_path, read_rule_schema, state_path, PathError,
    RewriteError, RewriteKind, SchemaSource,
};
use boltconn::text::{
    bytes_eq, contains, ends_with, find, parse_number, split_fields, split_on, starts_with, str_eq,
    trimmed,
};

const PLAIN: OutboundType = OutboundType { tcp: TcpTransferType::PlainTcp, udp: UdpTransferType::PlainUdp };
const UOT: OutboundType = OutboundType { tcp: TcpTransferType::PlainTcp, udp: UdpTransferType::UdpOverTcp };
const TOU: OutboundType = OutboundType { tcp: TcpTransferType::TcpOverUdp, udp: UdpTransferType::PlainUdp };
const TCP_ONLY: OutboundType =
    OutboundType { tcp: TcpTransferType::PlainTcp, udp: UdpTransferType::NotSupported };

#[test]
fn chain_ss_trojan() {
    let chain = ChainOutbound::new(vec![PLAIN, UOT]);
    assert_eq!(
        chain.spawn(true),
        vec![HopCall::TcpWithOutbound { outbound: Carrier::Tcp }, HopCall::Tcp]
    );
    assert_eq!(chain.spawn_tcp(), chain.spawn(true));
}

#[test]
fn udp_over_tcp_jump() {
    let chain = ChainOutbound::new(vec![UOT, PLAIN]);
    assert_eq!(
        chain.spawn(false),
        vec![HopCall::UdpWithOutbound { outbound: Carrier::Tcp, not_first: false }, HopCall::Tcp]
    );
    assert_eq!(chain.spawn_udp(), chain.spawn(false));
}

#[test]
fn chain_carrier_matches_terminal_call() {
    let kinds = [PLAIN, UOT, TOU, TCP_ONLY];
    for a in kinds {
        for b in kinds {
            for c in kinds {
                for use_tcp in [true, false] {
                    let calls = ChainOutbound::new(vec![a, b, c]).spawn(use_tcp);
                    assert_eq!(calls.len(), 3);
                    let mut carrier = if use_tcp { Carrier::Tcp } else { Carrier::Udp };
                    for (i, call) in calls.iter().enumerate() {
                        match (*call, carrier) {
                            (HopCall::TcpWithOutbound { outbound }, Carrier::Tcp) => {
                                assert!(i < 2);
                                carrier = outbound;
                            }
                            (HopCall::UdpWithOutbound { outbound, not_first }, Carrier::Udp) => {
                                assert!(i < 2);
                                assert_eq!(not_first, i > 0);
                                carrier = outbound;
                            }
                            (HopCall::Tcp, Carrier::Tcp) => assert_eq!(i, 2),
                            (HopCall::Udp { tunnel_only }, Carrier::Udp) => {
                                assert_eq!(i, 2);
                                assert!(tunnel_only);
                            }
                            other => panic!("call and carrier differ: {:?}", other),
                        }
                    }
                }
            }
        }
    }
}

#[test]
fn chain_switches_carriers() {
    let chain = ChainOutbound::new(vec![TOU, UOT, TOU, PLAIN]);
    assert_eq!(
        chain.spawn(true),
        vec![
            HopCall::TcpWithOutbound { outbound: Carrier::Udp },
            HopCall::UdpWithOutbound { outbound: Carrier::Tcp, not_first: true },
            HopCall::TcpWithOutbound { outbound: Carrier::Udp },
            HopCall::Udp { tunnel_only: true },
        ]
    );
    assert_eq!(
        chain.spawn(false),
        vec![
            HopCall::UdpWithOutbound { outbound: Carrier::Udp, not_first: false },
            HopCall::UdpWithOutbound { outbound: Carrier::Tcp, not_first: true },
            HopCall::TcpWithOutbound { outbound: Carrier::Udp },
            HopCall::Udp { tunnel_only: true },
        ]
    );
    assert_eq!(ChainOutbound::new(vec![TOU]).spawn(true), vec![HopCall::Tcp]);
    assert_eq!(ChainOutbound::new(vec![UOT]).spawn(false), vec![HopCall::Udp { tunnel_only: true }]);
    assert_eq!(chain.outbound_type(), None);
    assert_eq!(chain.spawn_tcp_with_outbound(), Err(ChainError::InvalidData));
    assert_eq!(chain.spawn_udp_with_outbound(), Err(ChainError::InvalidData));
    assert_eq!(TOU.tcp_transfer_type(), TcpTransferType::TcpOverUdp);
    assert_eq!(TCP_ONLY.udp_transfer_type(), UdpTransferType::NotSupported);
}

#[test]
fn tcp_task_keeps_what_was_not_sent() {
    let mut task = TcpConnTask::new(3);
    assert_eq!(task.try_send(false), Want::Nothing);
    assert_eq!(task.try_send(true), Want::Fetch);
    assert_eq!(task.fetched(Incoming::Empty), Ok(false));
    assert_eq!(task.fetched(Incoming::Data(vec![1, 2, 3, 4, 5])), Ok(true));
    assert_eq!(task.pending(), [1, 2, 3, 4, 5]);
    assert_eq!(task.sent(Some(2)), Ok(true));
    assert_eq!(task.remain_to_send, Some((vec![1, 2, 3, 4, 5], 2)));
    assert_eq!(task.try_send(true), Want::Resend);
    assert_eq!(task.try_send(false), Want::Nothing);
    assert_eq!(task.pending(), [3, 4, 5]);
    assert_eq!(task.sent(Some(0)), Ok(true));
    assert_eq!(task.pending(), [3, 4, 5]);
    assert_eq!(task.sent(Some(3)), Ok(true));
    assert_eq!(task.remain_to_send, None);
    assert_eq!(task.pending(), [] as [u8; 0]);
    assert_eq!(task.try_send(true), Want::Fetch);
    assert_eq!(task.fetched(Incoming::Data(vec![9])), Ok(true));
    assert_eq!(task.sent(None), Err(StackError::ConnectionAborted));
    assert_eq!(task.remain_to_send, None);
    assert_eq!(task.fetched(Incoming::Disconnected), Err(StackError::ConnectionAborted));
    assert_eq!(task.fetched(Incoming::Data(vec![])), Ok(true));
    assert_eq!(task.sent(Some(0)), Ok(true));
    assert_eq!(task.remain_to_send, None);
    assert_eq!(task.handle, 3);
    assert!(task.try_recv(true, 1));
    assert!(!task.try_recv(true, 0));
    assert!(!task.try_recv(false, 10));
}

fn endpoint(d: u8, port: u16) -> SockAddr {
    SockAddr { ip: IpAddress::from_octets(10, 0, 0, d), port }
}

#[test]
fn udp_task_drops_strangers() {
    let mut task = UdpConnTask::new(1, endpoint(1, 53), 100);
    assert!(!task.try_recv(endpoint(2, 53), 200));
    assert_eq!(task.last_active, 100);
    assert!(!task.try_recv(endpoint(1, 54), 200));
    assert_eq!(task.last_active, 100);
    assert!(task.try_recv(endpoint(1, 53), 300));
    assert_eq!(task.last_active, 300);
    assert_eq!(task.try_send(&Incoming::Empty, true, 400), Ok(false));
    assert_eq!(task.last_active, 300);
    assert_eq!(task.try_send(&Incoming::Data(vec![1]), true, 500), Ok(true));
    assert_eq!(task.last_active, 500);
    assert_eq!(task.try_send(&Incoming::Data(vec![1]), false, 600), Err(StackError::ConnectionAborted));
    assert_eq!(task.try_send(&Incoming::Disconnected, true, 700), Err(StackError::ConnectionAborted));
    assert_eq!(task.last_active, 500);
}

#[test]
fn stack_ports() {
    let mut stack = SmolStack::new(1_000);
    assert_eq!(stack.open_tcp(4000, Some(1)), Ok(()));
    assert_eq!(stack.open_tcp(4000, Some(2)), Err(StackError::AddrInUse));
    assert_eq!(stack.open_tcp(4000, None), Err(StackError::AddrInUse));
    assert_eq!(stack.open_tcp(4001, None), Err(StackError::ConnectionRefused));
    assert_eq!(stack.open_tcp(4001, Some(2)), Ok(()));
    assert_eq!(stack.open_tcp(4002, Some(3)), Ok(()));
    assert_eq!(stack.open_udp(4000, endpoint(1, 53), Some(4), 0), Ok(()));
    assert_eq!(stack.open_udp(4000, endpoint(1, 53), Some(5), 0), Err(StackError::AddrInUse));
    assert_eq!(stack.open_udp(4001, endpoint(1, 53), None, 0), Err(StackError::ConnectionRefused));
    assert_eq!(stack.tcp_conn.len(), 3);
    assert_eq!(stack.udp_conn.len(), 1);
    let mut handles = stack.purge_closed_tcp(&vec![4002, 4000, 4999, 4000]);
    handles.sort();
    assert_eq!(handles, [1, 3]);
    assert_eq!(stack.tcp_conn.len(), 1);
    assert!(stack.tcp_conn.contains_key(&4001));
    assert_eq!(stack.open_tcp(4000, Some(6)), Ok(()));
    assert_eq!(stack.purge_closed_tcp(&vec![]), [] as [usize; 0]);
    assert_eq!(stack.udp_conn.len(), 1);
}

#[test]
fn stack_udp_timeout() {
    let mut stack = SmolStack::new(1_000);
    assert_eq!(stack.open_udp(1, endpoint(1, 53), Some(11), 0), Ok(()));
    assert_eq!(stack.open_udp(2, endpoint(1, 53), Some(12), 500), Ok(()));
    assert_eq!(stack.open_udp(3, endpoint(1, 53), Some(13), 2_000), Ok(()));
    assert_eq!(stack.purge_timeout_udp(1_000), [] as [usize; 0]);
    assert_eq!(stack.udp_conn.len(), 3);
    assert_eq!(stack.purge_timeout_udp(1_001), [11]);
    assert_eq!(stack.udp_conn.len(), 2);
    assert!(!stack.udp_conn.contains_key(&1));
    let mut gone = stack.purge_timeout_udp(3_001);
    gone.sort();
    assert_eq!(gone, [12, 13]);
    assert_eq!(stack.udp_conn.len(), 0);
    assert_eq!(stack.open_udp(1, endpoint(1, 53), Some(14), 3_001), Ok(()));
}

#[test]
fn connector_keeps_the_order() {
    assert_eq!(CONNECTOR_CAPACITY, 10);
    let abort = AbortHandle::new();
    let (mut head, mut tail) = Connector::<u32>::new_pair(3);
    assert_eq!(head.capacity(), 3);
    for item in [1, 2, 3] {
        assert_eq!(head.send(item, &abort), Ok(()));
    }
    assert_eq!(head.send(4, &abort), Err((4, ConnectorError::Full)));
    assert_eq!(head.capacity(), 0);
    let mut received = vec![];
    let mut next = 5;
    loop {
        let moved = head.relay(&mut tail, &abort);
        if let Ok(Some(item)) = tail.recv(&abort) {
            received.push(item);
        }
        if next <= 7 && head.send(next, &abort).is_ok() {
            next += 1;
        }
        if !moved && head.queue.is_empty() && tail.queue.is_empty() {
            break;
        }
    }
    assert_eq!(received, [1, 2, 3, 5, 6, 7]);
    assert_eq!(tail.recv(&abort), Ok(None));
}

#[test]
fn cancelling_stops_a_connector() {
    let mut abort = AbortHandle::new();
    assert_eq!(abort.state, AbortState::Ready);
    abort.start();
    assert_eq!(abort.state, AbortState::Running);
    let mut c = Connector::<u8>::new(2);
    let mut other = Connector::<u8>::new(2);
    assert_eq!(c.send(1, &abort), Ok(()));
    abort.cancel();
    assert!(abort.is_cancelled());
    abort.cancel();
    abort.start();
    assert_eq!(abort.state, AbortState::Cancelled);
    assert_eq!(c.send(2, &abort), Err((2, ConnectorError::Cancelled)));
    assert_eq!(c.recv(&abort), Err(ConnectorError::Cancelled));
    assert!(!c.relay(&mut other, &abort));
    assert_eq!(c.queue, [1]);
    assert_eq!(other.queue, [] as [u8; 0]);
}

#[test]
fn shadowsocks_server_address() {
    let by_name = SSOutbound::new(
        "eth0",
        NetworkAddr::DomainName { domain_name: "example.com".to_string(), port: 443 },
        ShadowSocksConfig {
            server_addr: NetworkAddr::DomainName { domain_name: "ss.example".to_string(), port: 8388 },
            password: "secret".to_string(),
            cipher_kind: CipherKind::Aes256Gcm,
            udp: false,
        },
    );
    assert_eq!(by_name.iface_name, "eth0");
    assert_eq!(by_name.server_name().map(|s| s.as_str()), Some("ss.example"));
    assert_eq!(by_name.run(None), Err(SsError::DnsNotFound));
    assert_eq!(
        by_name.run(Some(IpAddress::from_octets(192, 0, 2, 9))),
        Ok(SockAddr { ip: IpAddress::from_octets(192, 0, 2, 9), port: 8388 })
    );
    assert_eq!(by_name.run(Some(IpAddress::V6(1))), Ok(SockAddr { ip: IpAddress::V6(1), port: 8388 }));
    assert_eq!(by_name.outbound_type(), TCP_ONLY);
    let by_addr = SSOutbound::new(
        "eth0",
        NetworkAddr::Raw(endpoint(1, 80)),
        ShadowSocksConfig {
            server_addr: NetworkAddr::Raw(endpoint(9, 8388)),
            password: "secret".to_string(),
            cipher_kind: CipherKind::Aes128Gcm,
            udp: true,
        },
    );
    assert_eq!(by_addr.server_name(), None);
    assert_eq!(by_addr.run(None), Ok(endpoint(9, 8388)));
    assert_eq!(by_addr.run(Some(IpAddress::V6(1))), Ok(endpoint(9, 8388)));
    assert_eq!(by_addr.outbound_type(), PLAIN);
}

#[test]
fn paths() {
    assert_eq!(join("/etc/boltconn", "cert"), "/etc/boltconn/cert");
    assert_eq!(join("/etc/boltconn/", "cert"), "/etc/boltconn/cert");
    assert_eq!(join("", "cert"), "cert");
    assert_eq!(join("/", "cert"), "/cert");
    assert_eq!(state_path("/home/u/.config/boltconn"), "/home/u/.config/boltconn/state.yml");
    let home = "/home/u".to_string();
    let given = "/etc/bolt".to_string();
    let cert = "/var/cert".to_string();
    assert_eq!(
        parse_config_path(None, None, Some(&home)),
        Ok(("/home/u/.config/boltconn".to_string(), "/home/u/.config/boltconn/cert".to_string()))
    );
    assert_eq!(
        parse_config_path(Some(&given), None, None),
        Ok(("/etc/bolt".to_string(), "/etc/bolt/cert".to_string()))
    );
    assert_eq!(
        parse_config_path(Some(&given), Some(&cert), Some(&home)),
        Ok(("/etc/bolt".to_string(), "/var/cert".to_string()))
    );
    assert_eq!(parse_config_path(None, Some(&cert), None), Err(PathError::NoHome));
}

#[test]
fn rewrite_rules_are_sorted_by_kind() {
    let list: Vec<String> = ["url,a", "header-req,b", "url,c", "header-resp,d"]
        .iter()
        .map(|s| s.to_string())
        .collect();
    assert_eq!(
        mapping_rewrite(&list),
        Ok((
            vec!["url,a".to_string(), "url,c".to_string()],
            vec!["header-req,b".to_string(), "header-resp,d".to_string()]
        ))
    );
    assert_eq!(mapping_rewrite(&[]), Ok((vec![], vec![])));
    let bad: Vec<String> = ["url,a", "URL,b", "nonsense"].iter().map(|s| s.to_string()).collect();
    assert_eq!(mapping_rewrite(&bad), Err(RewriteError::Unexpected(1)));
    assert_eq!(kind_of_rewrite("url,"), Some(RewriteKind::Url));
    assert_eq!(kind_of_rewrite("url"), None);
    assert_eq!(kind_of_rewrite(" url,x"), None);
    assert_eq!(kind_of_rewrite("header-resp,x"), Some(RewriteKind::Header));
    assert_eq!(kind_of_rewrite("header-,x"), None);
}

#[test]
fn rule_provider_sources() {
    let file = RuleProvider::File { path: "rules/a.yml".to_string() };
    let http = RuleProvider::Http {
        url: "https://example.com/a.yml".to_string(),
        path: "rules/b.yml".to_string(),
        interval: 3600,
    };
    for force in [true, false] {
        for exists in [true, false] {
            match read_rule_schema(&file, force, exists) {
                SchemaSource::Local(path) => assert_eq!(path, "rules/a.yml"),
                other => panic!("a file is read: {:?}", other),
            }
            match read_rule_schema(&http, force, exists) {
                SchemaSource::Local(path) => {
                    assert!(!force && exists);
                    assert_eq!(path, "rules/b.yml");
                }
                SchemaSource::Download { url, path } => {
                    assert!(force || !exists);
                    assert_eq!(url, "https://example.com/a.yml");
                    assert_eq!(path, "rules/b.yml");
                }
            }
        }
    }
}

#[test]
fn group_shapes() {
    let shape = |proxies: bool, providers: bool, chains: bool| RawProxyGroupCfg {
        proxies: proxies.then(Vec::new),
        providers: providers.then(Vec::new),
        chains: chains.then(Vec::new),
        interface: None,
    };
    assert!(shape(true, false, false).roughly_validate());
    assert!(shape(false, true, false).roughly_validate());
    assert!(shape(true, true, false).roughly_validate());
    assert!(shape(false, false, true).roughly_validate());
    assert!(!shape(false, false, false).roughly_validate());
    assert!(!shape(true, false, true).roughly_validate());
    assert!(!shape(false, true, true).roughly_validate());
}

#[test]
fn addresses_from_text() {
    assert_eq!(parse_ipv4(b"192.168.1.10"), Some(0xc0a8_010a));
    assert_eq!(parse_ipv4(b"0.0.0.0"), Some(0));
    assert_eq!(parse_ipv4(b"255.255.255.255"), Some(0xffff_ffff));
    assert_eq!(parse_ipv4(b"010.1.1.1"), Some(0x0a01_0101));
    for bad in [&b"256.1.1.1"[..], b"1.1.1", b"1.1.1.1.1", b"1..1.1", b"a.b.c.d", b"", b"1.1.1.0001", b" 1.1.1.1"] {
        assert_eq!(parse_ipv4(bad), None);
    }
    assert_eq!(parse_cidr(b"10.0.0.0/8"), Some((0x0a00_0000, 8)));
    assert_eq!(parse_cidr(b"10.0.0.0/0"), Some((0x0a00_0000, 0)));
    assert_eq!(parse_cidr(b"10.0.0.0/32"), Some((0x0a00_0000, 32)));
    for bad in [&b"10.0.0.0/33"[..], b"10.0.0.0", b"10.0.0.0/", b"10.0.0.0/8/8", b"10.0.0.0/008", b"/8"] {
        assert_eq!(parse_cidr(bad), None);
    }
    assert_eq!(split_host_port("example.com:443"), Some(("example.com".to_string(), 443)));
    assert_eq!(split_host_port("example.com:443:ignored"), Some(("example.com".to_string(), 443)));
    assert_eq!(split_host_port(":0"), Some((String::new(), 0)));
    assert_eq!(split_host_port("h\u{f4}te:65535"), Some(("h\u{f4}te".to_string(), 65535)));
    assert_eq!(split_host_port("example.com"), None);
    assert_eq!(split_host_port("example.com:"), None);
    assert_eq!(split_host_port("example.com:65536"), None);
    assert_eq!(split_host_port("example.com:+80"), None);
    assert_eq!(
        NetworkAddr::parse("1.2.3.4:80"),
        Some(NetworkAddr::Raw(SockAddr { ip: IpAddress::V4(0x0102_0304), port: 80 }))
    );
    assert_eq!(
        NetworkAddr::parse("1.2.3.400:80"),
        Some(NetworkAddr::DomainName { domain_name: "1.2.3.400".to_string(), port: 80 })
    );
    assert_eq!(NetworkAddr::parse("[::1]:80"), None);
    assert!(IpAddress::V4(1).is_v4());
    assert!(!IpAddress::V6(1).is_v4());
    assert_eq!(NetworkAddr::Raw(endpoint(1, 99)).port(), 99);
}

#[test]
fn byte_strings() {
    assert!(bytes_eq(b"abc", b"abc"));
    assert!(!bytes_eq(b"abc", b"abd"));
    assert!(!bytes_eq(b"abc", b"ab"));
    assert!(bytes_eq(b"", b""));
    assert!(str_eq("h\u{e9}", "h\u{e9}"));
    assert!(!str_eq("h\u{e9}", "he"));
    assert!(starts_with(b"header-req,x", b"header-req,"));
    assert!(!starts_with(b"head", b"header"));
    assert!(starts_with(b"", b""));
    assert!(ends_with(b"alice/http", b"/http"));
    assert!(!ends_with(b"http", b"/http"));
    assert_eq!(find(b"a/http/http", b"/http"), Some(1));
    assert_eq!(find(b"abc", b""), Some(0));
    assert_eq!(find(b"", b""), Some(0));
    assert_eq!(find(b"abc", b"cd"), None);
    assert_eq!(find(b"ab", b"abc"), None);
    assert!(contains(b"cdn.video.net", b"video"));
    assert!(!contains(b"cdn.video.net", b"audio"));
    assert_eq!(trimmed(b"  \ta b \t", 0, 8), b"a b");
    assert_eq!(trimmed(b"  \ta b \t", 3, 6), b"a b");
    assert_eq!(trimmed(b"   ", 0, 3), b"");
    assert_eq!(trimmed(b"\n x", 0, 3), b"\n x");
    assert_eq!(split_on(b"a,b,,c", b','), [&b"a"[..], b"b", b"", b"c"]);
    assert_eq!(split_on(b"", b','), [&b""[..]]);
    assert_eq!(split_on(b",", b','), [&b""[..], b""]);
    assert_eq!(split_fields(b" DOMAIN , example.com,DIRECT ", b','), [&b"DOMAIN"[..], b"example.com", b"DIRECT"]);
    assert_eq!(parse_number(b"0", 10), Some(0));
    assert_eq!(parse_number(b"10", 10), Some(10));
    assert_eq!(parse_number(b"11", 10), None);
    assert_eq!(parse_number(b"0000000000000000000000007", 10), Some(7));
    assert_eq!(parse_number(b"99999999999999999999", 65535), None);
    assert_eq!(parse_number(b"", 10), None);
    assert_eq!(parse_number(b"1a", 10), None);
    assert_eq!(parse_number(b"-1", 10), None);
}

#[test]
fn buffer_pool_is_bounded() {
    let mut pool = PktBufPool::new(8, 2);
    let mut a = pool.obtain().unwrap();
    let b = pool.obtain().unwrap();
    assert!(pool.obtain().is_none());
    assert_eq!(a.data, [0u8; 8]);
    assert_eq!(a.len, 0);
    a.data[..3].copy_from_slice(&[1, 2, 3]);
    a.len = 3;
    assert_eq!(a.as_ready(), [1, 2, 3]);
    assert!(pool.release(a));
    assert_eq!(pool.lent, 1);
    let again = pool.obtain().unwrap();
    assert_eq!(again.len, 0);
    assert_eq!(again.data.len(), 8);
    assert!(pool.obtain().is_none());
    assert!(!pool.release(PktBufHandle { data: vec![0; 7], len: 0 }));
    assert!(pool.release(b));
    assert!(pool.release(again));
    assert!(!pool.release(PktBufHandle { data: vec![0; 8], len: 0 }));
    assert_eq!(pool.lent, 0);
    assert_eq!(pool.free.len(), 2);
}
