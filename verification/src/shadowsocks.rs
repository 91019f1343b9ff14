//! The Shadowsocks outbound: where it connects to, and what it asks the
//! server to reach.

use crate::addr::{IpAddress, NetworkAddr, NetworkAddrView, SockAddr};
use crate::chain::{OutboundType, TcpTransferType, UdpTransferType};
use crate::proxy::ShadowSocksConfig;
use vstd::prelude::*;

verus! {

/// A Shadowsocks outbound for one flow.
#[derive(Debug)]
pub struct SSOutbound {
    /// The interface that the connection to the server is bound to.
    pub iface_name: String,
    /// The destination of the flow.
    pub dst: NetworkAddr,
    pub config: ShadowSocksConfig,
}

/// Why the outbound could not run.
#[derive(Clone, Copy, Debug, PartialEq, Eq, Structural)]
pub enum SsError {
    /// The resolver has no address for the server.
    DnsNotFound,
}

impl SSOutbound {
    /// The outbound of a flow to `dst` by the server of `config`.
    pub fn new(iface_name: &str, dst: NetworkAddr, config: ShadowSocksConfig) -> (r: SSOutbound)
        ensures
            r.iface_name@ == iface_name@,
            r.dst == dst,
            r.config == config,
    {
        SSOutbound { iface_name: iface_name.to_owned(), dst, config }
    }

    /// The host name of the server, where the server is configured by name
    /// and has to be resolved.
    pub fn server_name(&self) -> (r: Option<&String>)
        ensures
            match r {
                Some(name) => self.config.server_addr@ matches NetworkAddrView::DomainName {
                    domain_name,
                    ..
                } && domain_name == name@,
                None => self.config.server_addr@ is Raw,
            },
    {
        match &self.config.server_addr {
            NetworkAddr::DomainName { domain_name, .. } => Some(domain_name),
            NetworkAddr::Raw(_) => None,
        }
    }

    /// The socket address of the server: the configured one, or the address
    /// that the resolver gave for its name, with the configured port.
    pub fn run(&self, resolved: Option<IpAddress>) -> (r: Result<SockAddr, SsError>)
        ensures
            r == match (self.config.server_addr@, resolved) {
                (NetworkAddrView::Raw(s), _) => Ok::<SockAddr, SsError>(s),
                (NetworkAddrView::DomainName { port, .. }, Some(ip)) => Ok(SockAddr { ip, port }),
                (NetworkAddrView::DomainName { .. }, None) => Err(SsError::DnsNotFound),
            },
    {
        match &self.config.server_addr {
            NetworkAddr::Raw(s) => Ok(*s),
            NetworkAddr::DomainName { port, .. } => match resolved {
                Some(ip) => Ok(SockAddr { ip, port: *port }),
                None => Err(SsError::DnsNotFound),
            },
        }
    }

    /// What the outbound says of its transport: TCP as it is, and UDP as it
    /// is where the server is configured for it.
    pub fn outbound_type(&self) -> (t: OutboundType)
        ensures
            t.tcp == TcpTransferType::PlainTcp,
            t.udp == if self.config.udp {
                UdpTransferType::PlainUdp
            } else {
                UdpTransferType::NotSupported
            },
    {
        OutboundType {
            tcp: TcpTransferType::PlainTcp,
            udp: if self.config.udp {
                UdpTransferType::PlainUdp
            } else {
                UdpTransferType::NotSupported
            },
        }
    }
}

} // verus!
