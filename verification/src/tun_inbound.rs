//! The TUN inbound: from the port of an accepted connection back to the
//! flow that was hijacked.

use crate::addr::{NetworkAddr, NetworkAddrView, NetworkType, SockAddr};
use crate::rule::{ConnInfo, InboundInfo};
use crate::session::{closed, port_used, SessionManager};
use vstd::prelude::*;

verus! {

/// The inbound of the flows that the TUN device redirects to the listener.
#[derive(Debug)]
pub struct TunTcpInbound {
    /// Where the listener listens.
    pub nat_addr: SockAddr,
}

/// The listener of the session NAT.
#[derive(Debug)]
pub struct Nat {
    /// Where the listener listens.
    pub nat_addr: SockAddr,
}

/// The destination of a flow: the host name that the address stands for,
/// where the resolver handed the address out for one, else the address.
pub open spec fn destination_of(dst: SockAddr, domain: Option<Seq<char>>) -> NetworkAddrView {
    match domain {
        Some(name) => NetworkAddrView::DomainName { domain_name: name, port: dst.port },
        None => NetworkAddrView::Raw(dst),
    }
}

/// The destination of a flow. See `destination_of`.
pub fn destination(dst: SockAddr, domain: Option<String>) -> (r: NetworkAddr)
    ensures
        r@ == destination_of(
            dst,
            match domain {
                Some(d) => Some(d@),
                None => None,
            },
        ),
{
    match domain {
        Some(name) => NetworkAddr::DomainName { domain_name: name, port: dst.port },
        None => NetworkAddr::Raw(dst),
    }
}

impl TunTcpInbound {
    /// The inbound whose listener listens at `addr`.
    pub fn new(addr: SockAddr) -> (r: TunTcpInbound)
        ensures
            r.nat_addr == addr,
    {
        TunTcpInbound { nat_addr: addr }
    }

    /// The flow behind a connection that the listener accepted from the
    /// port `peer_port`: its two ends and its indicator, where the port
    /// stands for a session.
    pub fn run(&self, sessions: &SessionManager, peer_port: u16) -> (r: Option<(SockAddr, SockAddr, u8)>)
        ensures
            match r {
                Some(found) => exists|i: int|
                    0 <= i < sessions.tcp.entries@.len() && (#[trigger] sessions.tcp.entries@[i]).port
                        == peer_port && found == (
                        sessions.tcp.entries@[i].src,
                        sessions.tcp.entries@[i].dst,
                        sessions.tcp.entries@[i].indicator,
                    ),
                None => !port_used(sessions.tcp.entries@, peer_port as int),
            },
    {
        sessions.lookup_tcp(peer_port)
    }

    /// What is known of a TCP flow that came by the TUN device.
    pub fn flow(src: SockAddr, dst: SockAddr, domain: Option<String>) -> (info: ConnInfo)
        ensures
            info.src == src,
            info.dst@ == destination_of(
                dst,
                match domain {
                    Some(d) => Some(d@),
                    None => None,
                },
            ),
            info.inbound is Tun,
            info.resolved_dst is None,
            info.connection_type == NetworkType::Tcp,
            info.process_info is None,
    {
        ConnInfo {
            src,
            dst: destination(dst, domain),
            inbound: InboundInfo::Tun,
            resolved_dst: None,
            connection_type: NetworkType::Tcp,
            process_info: None,
        }
    }

    /// Ends the session of a flow that could not be handed on.
    pub fn failed(sessions: &mut SessionManager, peer_port: u16, now: u64)
        requires
            old(sessions).wf(),
        ensures
            final(sessions).wf(),
            final(sessions).udp == old(sessions).udp,
            final(sessions).tcp.entries@.len() == old(sessions).tcp.entries@.len(),
            forall|i: int|
                0 <= i < old(sessions).tcp.entries@.len() ==> #[trigger] final(sessions).tcp.entries@[i]
                    == closed(old(sessions).tcp.entries@[i], peer_port, now),
    {
        let _ = sessions.tcp.close(peer_port, now);
    }
}

impl Nat {
    /// The listener that listens at `addr`.
    pub fn new(addr: SockAddr) -> (r: Nat)
        ensures
            r.nat_addr == addr,
    {
        Nat { nat_addr: addr }
    }

    /// The flow behind a connection that the listener accepted from the
    /// port `peer_port`.
    pub fn run_tcp(&self, sessions: &SessionManager, peer_port: u16) -> (r: Option<(SockAddr, SockAddr, u8)>)
        ensures
            match r {
                Some(found) => exists|i: int|
                    0 <= i < sessions.tcp.entries@.len() && (#[trigger] sessions.tcp.entries@[i]).port
                        == peer_port && found == (
                        sessions.tcp.entries@[i].src,
                        sessions.tcp.entries@[i].dst,
                        sessions.tcp.entries@[i].indicator,
                    ),
                None => !port_used(sessions.tcp.entries@, peer_port as int),
            },
    {
        sessions.lookup_tcp(peer_port)
    }

    /// The flow behind a datagram that the listener received from the port
    /// `peer_port`.
    pub fn run_udp(&self, sessions: &SessionManager, peer_port: u16) -> (r: Option<(SockAddr, SockAddr, u8)>)
        ensures
            match r {
                Some(found) => exists|i: int|
                    0 <= i < sessions.udp.entries@.len() && (#[trigger] sessions.udp.entries@[i]).port
                        == peer_port && found == (
                        sessions.udp.entries@[i].src,
                        sessions.udp.entries@[i].dst,
                        sessions.udp.entries@[i].indicator,
                    ),
                None => !port_used(sessions.udp.entries@, peer_port as int),
            },
    {
        sessions.lookup_udp(peer_port)
    }
}

} // verus!
