use boltconn::addr::{IpAddress, NetworkAddr, NetworkType, SockAddr};
use boltconn::config::AuthData;
use boltconn::fake_ip::FakeIpPool;
use boltconn::http_inbound::{
    after_read, eq_ignore_ascii_case, head_complete, response200, response403, Header, HttpInbound,
    HttpOutcome, ReadStep, RequestHead, MAX_HEAD,
};
use boltconn::rule::InboundInfo;
use boltconn::session::{NatError, Session, SessionManager, SessionTable};
use boltconn::socks5_inbound::{
    push_octets, Command, Negotiation, Phase, ReplyError, Socks5Inbound, SocksError, Step,
};
use boltconn::tun_inbound::{destination, Nat, TunTcpInbound};

fn v4(a: u8, b: u8, c: u8, d: u8, port: u16) -> SockAddr {
    SockAddr { ip: IpAddress::from_octets(a, b, c, d), port }
}

fn auth() -> Option<AuthData> {
    Some(AuthData { username: "alice".to_string(), password: "wonder".to_string() })
}

fn accepted(out: HttpOutcome) -> NetworkAddr {
    match out {
        HttpOutcome::Accept(dest) => dest,
        other => panic!("not accepted: {:?}", other),
    }
}

#[test]
fn http_connect_is_accepted() {
    let inbound = HttpInbound::new(8080, None);
    assert_eq!(inbound.port, 8080);
    assert_eq!(inbound.auth, None);
    let req = b"CONNECT example.com:443 HTTP/1.1\r\nHost: example.com:443\r\n\r\n";
    assert_eq!(
        accepted(inbound.serve_connection(req)),
        NetworkAddr::DomainName { domain_name: "example.com".to_string(), port: 443 }
    );
    let req = b"CONNECT 93.184.216.34:80 HTTP/1.1\r\n\r\n";
    assert_eq!(accepted(inbound.serve_connection(req)), NetworkAddr::Raw(v4(93, 184, 216, 34, 80)));
}

#[test]
fn http_other_requests_are_forbidden() {
    let inbound = HttpInbound::new(8080, None);
    for req in [
        &b"GET http://example.com/ HTTP/1.1\r\nHost: example.com\r\n\r\n"[..],
        b"CONNECT example.com:443 HTTP/1.0\r\n\r\n",
        b"CONNECT example.com HTTP/1.1\r\n\r\n",
        b"CONNECT example.com:port HTTP/1.1\r\n\r\n",
        b"CONNECT example.com:65536 HTTP/1.1\r\n\r\n",
        b"connect example.com:443 HTTP/1.1\r\n\r\n",
        b"\r\n\r\n",
    ] {
        assert!(matches!(inbound.serve_connection(req), HttpOutcome::Forbidden));
    }
}

#[test]
fn http_malformed_requests_get_no_answer() {
    let inbound = HttpInbound::new(8080, None);
    assert!(matches!(
        inbound.serve_connection(b"CONNECT example.com:443 HTTQ/1.1\r\n\r\n"),
        HttpOutcome::Malformed
    ));
    assert!(matches!(
        inbound.serve_connection(b"CONNECT example.com:443 HTTP/1.1\r\nBad Header\r\n\r\n"),
        HttpOutcome::Malformed
    ));
    let mut many = b"CONNECT example.com:443 HTTP/1.1\r\n".to_vec();
    for i in 0..17 {
        many.extend_from_slice(format!("X-{}: v\r\n", i).as_bytes());
    }
    many.extend_from_slice(b"\r\n");
    assert!(matches!(inbound.serve_connection(&many), HttpOutcome::Malformed));
}

#[test]
fn http_credentials() {
    let inbound = HttpInbound::new(8080, auth());
    assert_eq!(inbound.auth.as_deref(), Some("alice:wonder"));
    let with = |header: &str| {
        let req = format!("CONNECT example.com:443 HTTP/1.1\r\n{}\r\n", header);
        inbound.serve_connection(req.as_bytes())
    };
    assert!(matches!(
        with("Proxy-Authorization: Basic YWxpY2U6d29uZGVy\r\n"),
        HttpOutcome::Accept(_)
    ));
    assert!(matches!(
        with("proxy-authorization: bAsIc YWxpY2U6d29uZGVy\r\n"),
        HttpOutcome::Accept(_)
    ));
    assert!(matches!(
        with("Proxy-Authorization: Basic Ym9iOndvbmRlcg==\r\nProxy-Authorization: Basic YWxpY2U6d29uZGVy\r\n"),
        HttpOutcome::Accept(_)
    ));
    assert!(matches!(with(""), HttpOutcome::Forbidden));
    assert!(matches!(with("Proxy-Authorization: Basic Ym9iOndvbmRlcg==\r\n"), HttpOutcome::Forbidden));
    assert!(matches!(with("Proxy-Authorization: Basic alice:wonder\r\n"), HttpOutcome::Forbidden));
    assert!(matches!(with("Proxy-Authorization: Bearer YWxpY2U6d29uZGVy\r\n"), HttpOutcome::Forbidden));
    assert!(matches!(with("Proxy-Authorization: Basic\r\n"), HttpOutcome::Forbidden));
    assert!(matches!(with("Authorization: Basic YWxpY2U6d29uZGVy\r\n"), HttpOutcome::Forbidden));
    let open = HttpInbound::new(8080, None);
    assert!(matches!(
        open.serve_connection(b"CONNECT example.com:443 HTTP/1.1\r\nProxy-Authorization: nonsense\r\n\r\n"),
        HttpOutcome::Accept(_)
    ));
}

#[test]
fn http_header_that_is_not_utf8_ends_the_search() {
    let head = |headers: Vec<Header>| RequestHead {
        method: Some("CONNECT".to_string()),
        path: Some("example.com:443".to_string()),
        version: Some(1),
        headers,
    };
    let good = || Header {
        name: "Proxy-Authorization".to_string(),
        value: b"Basic YWxpY2U6d29uZGVy".to_vec(),
    };
    let broken = || Header { name: "Proxy-Authorization".to_string(), value: vec![0xff, 0xfe] };
    let accent = || Header {
        name: "Proxy-Authorization".to_string(),
        value: "Basic \u{e9}".as_bytes().to_vec(),
    };
    let secret = "alice:wonder".to_string();
    let decide = |headers: Vec<Header>| HttpInbound::decide(&head(headers), Some(&secret));
    assert!(matches!(decide(vec![good()]), HttpOutcome::Accept(_)));
    assert!(matches!(decide(vec![broken(), good()]), HttpOutcome::Forbidden));
    assert!(matches!(decide(vec![good(), broken()]), HttpOutcome::Accept(_)));
    assert!(matches!(decide(vec![accent(), good()]), HttpOutcome::Accept(_)));
    assert!(matches!(decide(vec![]), HttpOutcome::Forbidden));
    let no_path = RequestHead { method: Some("CONNECT".to_string()), path: None, version: Some(1), headers: vec![] };
    assert!(matches!(HttpInbound::decide(&no_path, None), HttpOutcome::Forbidden));
}

#[test]
fn http_reading_the_head() {
    assert_eq!(response200(), "HTTP/1.1 200 OK\r\n\r\n");
    assert_eq!(response403(), "HTTP/1.1 403 Forbidden\r\n\r\n");
    assert!(head_complete(b"GET / HTTP/1.1\r\n\r\n"));
    assert!(!head_complete(b"GET / HTTP/1.1\r\n"));
    assert!(!head_complete(b""));
    assert_eq!(after_read(b"GET / HTTP/1.1\r\n", 16), ReadStep::More);
    assert_eq!(after_read(b"GET / HTTP/1.1\r\n\r\n", 2), ReadStep::Done);
    assert_eq!(after_read(b"GET / HTTP/1.1\r\n", 0), ReadStep::Eof);
    let mut long = vec![b'a'; MAX_HEAD - 3];
    long.extend_from_slice(b"\r\n\r\n");
    assert_eq!(long.len(), MAX_HEAD + 1);
    assert_eq!(after_read(&long, 4), ReadStep::TooLong);
    assert_eq!(after_read(&long[1..], 4), ReadStep::Done);
    assert!(eq_ignore_ascii_case(b"Proxy-Authorization", b"PROXY-authorization"));
    assert!(!eq_ignore_ascii_case(b"[", b"{"));
    assert!(!eq_ignore_ascii_case(b"@", b"`"));
    assert!(!eq_ignore_ascii_case(b"abc", b"abcd"));
}

fn run(inbound: &Socks5Inbound, first: Option<u8>, inputs: &[&[u8]]) -> (Negotiation, Vec<Step>) {
    let (mut state, step) = inbound.process_auth(first);
    let mut steps = vec![step];
    for input in inputs {
        steps.push(inbound.advance(&mut state, input));
    }
    (state, steps)
}

#[test]
fn socks5_without_credentials() {
    let inbound = Socks5Inbound::new(1080, None);
    let (state, steps) = run(&inbound, None, &[&[5, 2], &[2, 0]]);
    assert_eq!(
        steps,
        [Step::Read { count: 2 }, Step::Read { count: 2 }, Step::Finished { bytes: (5, 0) }]
    );
    assert_eq!(state.phase, Phase::Done);
    let (state, steps) = run(&inbound, Some(5), &[&[1], &[2]]);
    assert_eq!(
        steps,
        [
            Step::Read { count: 1 },
            Step::Read { count: 1 },
            Step::Fail { bytes: Some((5, 0xff)), error: SocksError::AuthMethodUnacceptable },
        ]
    );
    assert_eq!(state.phase, Phase::Failed);
    let (_, steps) = run(&inbound, None, &[&[4, 1]]);
    assert_eq!(steps[1], Step::Fail { bytes: None, error: SocksError::UnsupportedSocksVersion(4) });
    let (_, steps) = run(&inbound, Some(4), &[&[1]]);
    assert_eq!(steps[1], Step::Fail { bytes: None, error: SocksError::UnsupportedSocksVersion(4) });
    let (_, steps) = run(&inbound, None, &[&[5, 0], &[]]);
    assert_eq!(
        steps[2],
        Step::Fail { bytes: Some((5, 0xff)), error: SocksError::AuthMethodUnacceptable }
    );
}

#[test]
fn socks5_with_credentials() {
    let inbound = Socks5Inbound::new(1080, auth());
    let (state, steps) =
        run(&inbound, None, &[&[5, 2], &[0, 2], &[1, 5], b"alice", &[6], b"wonder"]);
    assert_eq!(
        steps,
        [
            Step::Read { count: 2 },
            Step::Read { count: 2 },
            Step::Reply { bytes: (5, 2), count: 2 },
            Step::Read { count: 5 },
            Step::Read { count: 1 },
            Step::Read { count: 6 },
            Step::Finished { bytes: (1, 0) },
        ]
    );
    assert_eq!(state.phase, Phase::Done);
    let (_, steps) = run(&inbound, None, &[&[5, 1], &[0]]);
    assert_eq!(
        steps[2],
        Step::Fail { bytes: Some((5, 0xff)), error: SocksError::AuthMethodUnacceptable }
    );
    let (_, steps) = run(&inbound, None, &[&[5, 1], &[2], &[1, 5], b"alice", &[6], b"wander"]);
    assert_eq!(
        steps[6],
        Step::Fail { bytes: Some((1, 0xff)), error: SocksError::AuthenticationRejected }
    );
    let (_, steps) = run(&inbound, None, &[&[5, 1], &[2], &[1, 5], b"alicf", &[6], b"wonder"]);
    assert_eq!(
        steps[6],
        Step::Fail { bytes: Some((1, 0xff)), error: SocksError::AuthenticationRejected }
    );
    let (_, steps) = run(&inbound, None, &[&[5, 1], &[2], &[1, 0]]);
    assert_eq!(steps[3], Step::Fail { bytes: None, error: SocksError::AuthenticationFailed });
    let (_, steps) = run(&inbound, None, &[&[5, 1], &[2], &[1, 5], b"alice", &[0]]);
    assert_eq!(steps[5], Step::Fail { bytes: None, error: SocksError::AuthenticationFailed });
    let (_, steps) = run(&inbound, None, &[&[5, 1], &[2], &[5, 5]]);
    assert_eq!(steps[3], Step::Fail { bytes: None, error: SocksError::UnsupportedSocksVersion(5) });
}

#[test]
fn socks5_unexpected_input() {
    let inbound = Socks5Inbound::new(1080, None);
    let (state, steps) = run(&inbound, None, &[&[5]]);
    assert_eq!(steps[1], Step::Fail { bytes: None, error: SocksError::UnexpectedInput });
    assert_eq!(state.phase, Phase::Failed);
    let (_, steps) = run(&inbound, None, &[&[5, 1], &[0], &[5, 1, 0, 1]]);
    assert_eq!(steps[2], Step::Finished { bytes: (5, 0) });
    assert_eq!(steps[3], Step::Fail { bytes: None, error: SocksError::UnexpectedInput });
}

#[test]
fn socks5_request_and_reply() {
    assert_eq!(Socks5Inbound::request_head(&[5, 1, 0, 3]), Ok((1, 3)));
    assert_eq!(Socks5Inbound::request_head(&[5, 3, 0, 1]), Ok((3, 1)));
    assert_eq!(
        Socks5Inbound::request_head(&[4, 1, 0, 1]),
        Err(SocksError::UnsupportedSocksVersion(4))
    );
    assert_eq!(Socks5Inbound::request_head(&[5, 1, 0]), Err(SocksError::UnexpectedInput));
    assert_eq!(Socks5Inbound::command(1), Ok(Command::TcpConnect));
    assert_eq!(Socks5Inbound::command(3), Ok(Command::UdpAssociate));
    assert_eq!(Socks5Inbound::command(2), Err(SocksError::CommandNotSupported));
    assert_eq!(Socks5Inbound::command(0), Err(SocksError::CommandNotSupported));
    assert_eq!(
        Socks5Inbound::new_reply(ReplyError::Succeeded, v4(127, 0, 0, 1, 0)),
        [5, 0, 0, 1, 127, 0, 0, 1, 0, 0]
    );
    assert_eq!(
        Socks5Inbound::new_reply(ReplyError::CommandNotSupported, v4(10, 20, 30, 40, 0x1f90)),
        [5, 7, 0, 1, 10, 20, 30, 40, 0x1f, 0x90]
    );
    let v6 = SockAddr { ip: IpAddress::V6(0x2001_0db8_0000_0000_0000_0000_0000_0001), port: 53 };
    assert_eq!(
        Socks5Inbound::new_reply(ReplyError::HostUnreachable, v6),
        [5, 4, 0, 4, 0x20, 0x01, 0x0d, 0xb8, 0, 0, 0, 0, 0, 0, 0, 0, 0, 0, 0, 1, 0, 53]
    );
    let codes: Vec<u8> = [
        ReplyError::Succeeded,
        ReplyError::GeneralFailure,
        ReplyError::ConnectionNotAllowed,
        ReplyError::NetworkUnreachable,
        ReplyError::HostUnreachable,
        ReplyError::ConnectionRefused,
        ReplyError::ConnectionTimeout,
        ReplyError::TtlExpired,
        ReplyError::CommandNotSupported,
        ReplyError::AddressTypeNotSupported,
    ]
    .iter()
    .map(|e| e.as_u8())
    .collect();
    assert_eq!(codes, [0, 1, 2, 3, 4, 5, 6, 6, 7, 8]);
    let mut out = vec![9];
    push_octets(&mut out, 0x0102_0304, 2);
    assert_eq!(out, [9, 3, 4]);
    push_octets(&mut out, 7, 0);
    assert_eq!(out, [9, 3, 4]);
}

#[test]
fn nat_ports_are_unique() {
    let mut t = SessionTable::new(50000, 50003, 30_000, None);
    let a = t.register(v4(10, 0, 0, 1, 1000), v4(1, 1, 1, 1, 443), 0).unwrap();
    let b = t.register(v4(10, 0, 0, 1, 1001), v4(1, 1, 1, 1, 443), 1).unwrap();
    let c = t.register(v4(10, 0, 0, 1, 1000), v4(1, 1, 1, 2, 443), 2).unwrap();
    assert_eq!((a, b, c), (50000, 50001, 50002));
    for port in [a, b, c] {
        assert_eq!(t.lookup(port).unwrap().port, port);
    }
    assert_eq!(
        t.lookup(b),
        Some(Session {
            src: v4(10, 0, 0, 1, 1001),
            dst: v4(1, 1, 1, 1, 443),
            port: 50001,
            indicator: 2,
            last_seen: 1,
            zero_since: None,
        })
    );
    assert_eq!(t.lookup(50003), None);
    assert_eq!(t.lookup_by_addr(v4(10, 0, 0, 1, 1000), v4(1, 1, 1, 2, 443)), Some(c));
    assert_eq!(t.lookup_by_addr(v4(10, 0, 0, 1, 1000), v4(1, 1, 1, 3, 443)), None);
}

#[test]
fn nat_replay_keeps_the_port() {
    let mut t = SessionTable::new(50000, 50001, 30_000, None);
    let a = t.register(v4(10, 0, 0, 1, 1000), v4(1, 1, 1, 1, 443), 5).unwrap();
    assert!(t.release(a, 6));
    let again = t.register(v4(10, 0, 0, 1, 1000), v4(1, 1, 1, 1, 443), 7).unwrap();
    assert_eq!(again, a);
    assert_eq!(t.entries.len(), 1);
    assert_eq!(t.lookup(a).unwrap().indicator, 1);
    assert_eq!(t.lookup(a).unwrap().last_seen, 7);
    assert!(t.release(a, 8));
    let fresh = t.register(v4(10, 0, 0, 1, 1000), v4(1, 1, 1, 1, 443), 9).unwrap();
    assert_eq!(fresh, 50001);
    assert_eq!(t.lookup(fresh).unwrap().indicator, 2);
    assert_eq!(t.lookup_by_addr(v4(10, 0, 0, 1, 1000), v4(1, 1, 1, 1, 443)), Some(fresh));
}

#[test]
fn nat_port_exhaustion() {
    let mut t = SessionTable::new(60000, 60001, 30_000, None);
    assert_eq!(t.register(v4(10, 0, 0, 1, 1), v4(1, 1, 1, 1, 1), 0), Ok(60000));
    assert_eq!(t.register(v4(10, 0, 0, 1, 2), v4(1, 1, 1, 1, 1), 0), Ok(60001));
    assert_eq!(t.register(v4(10, 0, 0, 1, 3), v4(1, 1, 1, 1, 1), 0), Err(NatError::PortExhausted));
    assert_eq!(t.register(v4(10, 0, 0, 1, 2), v4(1, 1, 1, 1, 1), 9), Ok(60001));
    assert_eq!(t.entries.len(), 2);
    let mut top = SessionTable::new(65535, 65535, 30_000, None);
    assert_eq!(top.register(v4(10, 0, 0, 1, 1), v4(1, 1, 1, 1, 1), 0), Ok(65535));
    assert_eq!(top.register(v4(10, 0, 0, 1, 2), v4(1, 1, 1, 1, 1), 0), Err(NatError::PortExhausted));
}

#[test]
fn nat_indicator_only_goes_down() {
    let mut t = SessionTable::new(50000, 50010, 30_000, None);
    let a = t.register(v4(10, 0, 0, 1, 1), v4(1, 1, 1, 1, 1), 0).unwrap();
    let b = t.register(v4(10, 0, 0, 1, 2), v4(1, 1, 1, 1, 1), 0).unwrap();
    let mut seen = vec![t.lookup(a).unwrap().indicator];
    assert!(t.touch(a, 10));
    seen.push(t.lookup(a).unwrap().indicator);
    assert!(t.release(a, 20));
    seen.push(t.lookup(a).unwrap().indicator);
    assert_eq!(t.register(v4(10, 0, 0, 1, 1), v4(1, 1, 1, 1, 1), 25), Ok(a));
    seen.push(t.lookup(a).unwrap().indicator);
    assert!(t.release(a, 30));
    seen.push(t.lookup(a).unwrap().indicator);
    assert!(t.release(a, 40));
    seen.push(t.lookup(a).unwrap().indicator);
    assert_eq!(seen, [2, 2, 1, 1, 0, 0]);
    assert_eq!(t.lookup(a).unwrap().zero_since, Some(30));
    assert_eq!(t.lookup(b).unwrap().indicator, 2);
    assert!(t.close(b, 50));
    assert_eq!(t.lookup(b).unwrap().indicator, 0);
    assert_eq!(t.lookup(b).unwrap().zero_since, Some(50));
    assert!(!t.release(50009, 60));
    assert!(!t.touch(50009, 60));
    assert!(!t.close(50009, 60));
}

#[test]
fn nat_reaps_after_the_grace_period() {
    let mut m = SessionManager::new(50000, 50010, 30_000, 300_000);
    let a = m.register_tcp(v4(10, 0, 0, 1, 1), v4(1, 1, 1, 1, 1), 0).unwrap();
    let b = m.register_tcp(v4(10, 0, 0, 1, 2), v4(1, 1, 1, 1, 1), 0).unwrap();
    let u = m.register_udp(v4(10, 0, 0, 1, 1), v4(1, 1, 1, 1, 53), 0).unwrap();
    let w = m.register_udp(v4(10, 0, 0, 1, 2), v4(1, 1, 1, 1, 53), 0).unwrap();
    assert_eq!((a, b, u, w), (50000, 50001, 50000, 50001));
    assert!(m.tcp.release(a, 1_000));
    assert!(m.tcp.release(a, 2_000));
    m.flush(32_000);
    assert_eq!(m.lookup_tcp(a), Some((v4(10, 0, 0, 1, 1), v4(1, 1, 1, 1, 1), 0)));
    m.flush(32_001);
    assert_eq!(m.lookup_tcp(a), None);
    assert_eq!(m.lookup_tcp(b), Some((v4(10, 0, 0, 1, 2), v4(1, 1, 1, 1, 1), 2)));
    assert!(m.udp.touch(w, 200_000));
    m.flush(300_000);
    assert!(m.lookup_udp(u).is_some());
    m.flush(300_001);
    assert_eq!(m.lookup_udp(u), None);
    assert_eq!(m.lookup_udp(w), Some((v4(10, 0, 0, 1, 2), v4(1, 1, 1, 1, 53), 2)));
    m.flush(10_000_000);
    assert_eq!(m.lookup_tcp(b), Some((v4(10, 0, 0, 1, 2), v4(1, 1, 1, 1, 1), 2)));
    assert_eq!(m.lookup_udp(w), None);
    assert_eq!(m.register_tcp(v4(10, 0, 0, 1, 3), v4(1, 1, 1, 1, 1), 0), Ok(a));
}

#[test]
fn tun_inbound_recovers_the_flow() {
    let mut m = SessionManager::new(50000, 50010, 30_000, 300_000);
    let port = m.register_tcp(v4(10, 0, 0, 1, 4242), v4(198, 18, 0, 7, 443), 0).unwrap();
    let inbound = TunTcpInbound::new(v4(198, 18, 0, 1, 9961));
    assert_eq!(inbound.nat_addr, v4(198, 18, 0, 1, 9961));
    assert_eq!(inbound.run(&m, port), Some((v4(10, 0, 0, 1, 4242), v4(198, 18, 0, 7, 443), 2)));
    assert_eq!(inbound.run(&m, port + 1), None);
    let info = TunTcpInbound::flow(
        v4(10, 0, 0, 1, 4242),
        v4(198, 18, 0, 7, 443),
        Some("example.com".to_string()),
    );
    assert_eq!(info.dst, NetworkAddr::DomainName { domain_name: "example.com".to_string(), port: 443 });
    assert_eq!(info.inbound, InboundInfo::Tun);
    assert_eq!(info.connection_type, NetworkType::Tcp);
    assert_eq!(info.resolved_dst, None);
    assert_eq!(destination(v4(8, 8, 8, 8, 53), None), NetworkAddr::Raw(v4(8, 8, 8, 8, 53)));
    TunTcpInbound::failed(&mut m, port, 77);
    assert_eq!(inbound.run(&m, port), Some((v4(10, 0, 0, 1, 4242), v4(198, 18, 0, 7, 443), 0)));
    let nat = Nat::new(v4(198, 18, 0, 1, 9961));
    assert_eq!(nat.run_tcp(&m, port), inbound.run(&m, port));
    assert_eq!(nat.run_udp(&m, port), None);
}

#[test]
fn inbound_names() {
    assert_eq!("tun".parse(), Ok(InboundInfo::Tun));
    assert_eq!("http".parse(), Ok(InboundInfo::HttpAny));
    assert_eq!("socks5".parse(), Ok(InboundInfo::Socks5Any));
    assert_eq!("alice/http".parse(), Ok(InboundInfo::Http(Some("alice".to_string()))));
    assert_eq!("bob/socks5".parse(), Ok(InboundInfo::Socks5(Some("bob".to_string()))));
    assert_eq!("/http".parse(), Ok(InboundInfo::Http(Some(String::new()))));
    assert_eq!("a/http/http".parse(), Ok(InboundInfo::Http(Some("a".to_string()))));
    assert_eq!("\u{e9}t\u{e9}/socks5".parse(), Ok(InboundInfo::Socks5(Some("\u{e9}t\u{e9}".to_string()))));
    assert_eq!("alice/https".parse::<InboundInfo>(), Err(()));
    assert_eq!("".parse::<InboundInfo>(), Err(()));
    assert_eq!("TUN".parse::<InboundInfo>(), Err(()));
    let alice = InboundInfo::Http(Some("alice".to_string()));
    let bob = InboundInfo::Http(Some("bob".to_string()));
    assert!(alice.is_subset_of(&InboundInfo::HttpAny));
    assert!(alice.is_subset_of(&InboundInfo::Http(Some("alice".to_string()))));
    assert!(!alice.is_subset_of(&bob));
    assert!(!alice.is_subset_of(&InboundInfo::Socks5Any));
    assert!(!InboundInfo::HttpAny.is_subset_of(&alice));
    assert!(InboundInfo::HttpAny.is_subset_of(&InboundInfo::HttpAny));
    assert!(InboundInfo::Http(None).is_subset_of(&InboundInfo::HttpAny));
    assert!(InboundInfo::Socks5(None).is_subset_of(&InboundInfo::Socks5Any));
    assert!(InboundInfo::Tun.is_subset_of(&InboundInfo::Tun));
    assert!(!InboundInfo::Tun.is_subset_of(&InboundInfo::HttpAny));
}

#[test]
fn fake_addresses_stand_for_names() {
    assert!(FakeIpPool::new(0xffff_ff00, 257).is_none());
    assert!(FakeIpPool::new(0xffff_ff00, 256).is_some());
    let first = 0xc612_0002;
    let mut pool = FakeIpPool::new(first, 3).unwrap();
    let a = pool.domain_to_ip("a.example").unwrap();
    let b = pool.domain_to_ip("b.example").unwrap();
    assert_eq!(a, IpAddress::from_octets(198, 18, 0, 2));
    assert_eq!(b, IpAddress::from_octets(198, 18, 0, 3));
    assert_eq!(pool.domain_to_ip("a.example"), Some(a));
    assert_eq!(pool.ip_to_domain(a).map(|s| s.as_str()), Some("a.example"));
    assert_eq!(pool.ip_to_domain(b).map(|s| s.as_str()), Some("b.example"));
    assert_eq!(pool.ip_to_domain(IpAddress::from_octets(198, 18, 0, 4)), None);
    assert_eq!(pool.ip_to_domain(IpAddress::from_octets(198, 18, 0, 1)), None);
    assert_eq!(pool.ip_to_domain(IpAddress::V6(first as u128)), None);
    let c = pool.domain_to_ip("c.example").unwrap();
    assert_eq!(c, IpAddress::from_octets(198, 18, 0, 4));
    assert_eq!(pool.domain_to_ip("d.example"), None);
    assert_eq!(pool.domain_to_ip("b.example"), Some(b));
    assert_eq!(pool.names, ["a.example", "b.example", "c.example"]);
    let info = TunTcpInbound::flow(
        v4(10, 0, 0, 1, 1),
        SockAddr { ip: c, port: 443 },
        pool.ip_to_domain(c).cloned(),
    );
    assert_eq!(info.dst, NetworkAddr::DomainName { domain_name: "c.example".to_string(), port: 443 });
    let mut whole = FakeIpPool::new(0xffff_ffff, 1).unwrap();
    assert_eq!(whole.domain_to_ip("last"), Some(IpAddress::V4(0xffff_ffff)));
    assert_eq!(whole.domain_to_ip("none"), None);
}
