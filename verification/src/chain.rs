//! Planning how a flow is threaded through a chain of outbounds.
//!
//! Between two hops the flow travels as a stream or as addressed datagrams.
//! A hop that carries TCP over UDP, or UDP over TCP, switches the carrier for
//! the hops behind it.

use vstd::prelude::*;

verus! {

/// How an outbound carries TCP.
#[derive(Clone, Copy, Debug, PartialEq, Eq, Structural)]
pub enum TcpTransferType {
    PlainTcp,
    TcpOverUdp,
}

/// How an outbound carries UDP.
#[derive(Clone, Copy, Debug, PartialEq, Eq, Structural)]
pub enum UdpTransferType {
    PlainUdp,
    UdpOverTcp,
    NotSupported,
}

/// What an outbound says of its transport.
#[derive(Clone, Copy, Debug, PartialEq, Eq, Structural)]
pub struct OutboundType {
    pub tcp: TcpTransferType,
    pub udp: UdpTransferType,
}

/// What travels between two hops: a stream or addressed datagrams.
#[derive(Clone, Copy, Debug, PartialEq, Eq, Structural)]
pub enum Carrier {
    Tcp,
    Udp,
}

/// One call on a hop of a chain.
#[derive(Clone, Copy, Debug, PartialEq, Eq, Structural)]
pub enum HopCall {
    /// A hop before the last takes a stream and writes to a new connector of
    /// the kind `outbound`.
    TcpWithOutbound { outbound: Carrier },
    /// A hop before the last takes datagrams and writes to a new connector
    /// of the kind `outbound`.
    UdpWithOutbound { outbound: Carrier, not_first: bool },
    /// The last hop takes a stream.
    Tcp,
    /// The last hop takes datagrams.
    Udp { tunnel_only: bool },
}

/// Why a call on a chain was refused.
#[derive(Clone, Copy, Debug, PartialEq, Eq, Structural)]
pub enum ChainError {
    /// A chain is no hop of a chain.
    InvalidData,
}

/// The number of buffers that a connector between two hops holds.
pub const CONNECTOR_CAPACITY: usize = 10;

impl OutboundType {
    pub fn tcp_transfer_type(&self) -> (t: TcpTransferType)
        ensures
            t == self.tcp,
    {
        self.tcp
    }

    pub fn udp_transfer_type(&self) -> (t: UdpTransferType)
        ensures
            t == self.udp,
    {
        self.udp
    }
}

/// The carrier behind a hop that is given `carrier`.
pub open spec fn carrier_behind(hop: OutboundType, carrier: Carrier) -> Carrier {
    match carrier {
        Carrier::Tcp => if hop.tcp == TcpTransferType::TcpOverUdp {
            Carrier::Udp
        } else {
            Carrier::Tcp
        },
        Carrier::Udp => if hop.udp == UdpTransferType::UdpOverTcp {
            Carrier::Tcp
        } else {
            Carrier::Udp
        },
    }
}

/// The carrier in front of the hop at `i`, where the chain is given `first`.
pub open spec fn carrier_at(chains: Seq<OutboundType>, first: Carrier, i: int) -> Carrier
    decreases i,
{
    if i <= 0 {
        first
    } else {
        carrier_behind(chains[i - 1], carrier_at(chains, first, i - 1))
    }
}

/// The call on the hop at `i`: the last hop takes the carrier in front of
/// it; a hop before it takes that carrier and writes to the carrier behind
/// it.
pub open spec fn call_at(chains: Seq<OutboundType>, first: Carrier, i: int) -> HopCall {
    let carrier = carrier_at(chains, first, i);
    if i == chains.len() - 1 {
        match carrier {
            Carrier::Tcp => HopCall::Tcp,
            Carrier::Udp => HopCall::Udp { tunnel_only: true },
        }
    } else {
        match carrier {
            Carrier::Tcp => HopCall::TcpWithOutbound { outbound: carrier_behind(chains[i], carrier) },
            Carrier::Udp => HopCall::UdpWithOutbound {
                outbound: carrier_behind(chains[i], carrier),
                not_first: i > 0,
            },
        }
    }
}

/// The carrier that a flow enters with.
pub open spec fn first_carrier(use_tcp: bool) -> Carrier {
    if use_tcp {
        Carrier::Tcp
    } else {
        Carrier::Udp
    }
}

/// What a chain of outbounds says of the transport of each hop.
#[derive(Debug)]
pub struct ChainOutbound {
    pub chains: Vec<OutboundType>,
}

impl ChainOutbound {
    /// The chain of the hops, first hop first.
    pub fn new(chains: Vec<OutboundType>) -> (c: ChainOutbound)
        ensures
            c.chains == chains,
    {
        ChainOutbound { chains }
    }

    /// The calls on the hops of the chain, in order, for a flow that enters
    /// as a stream (`use_tcp`) or as datagrams.
    pub fn spawn(&self, use_tcp: bool) -> (calls: Vec<HopCall>)
        requires
            self.chains@.len() > 0,
        ensures
            calls@.len() == self.chains@.len(),
            forall|i: int|
                0 <= i < calls@.len() ==> #[trigger] calls@[i] == call_at(
                    self.chains@,
                    first_carrier(use_tcp),
                    i,
                ),
            calls@.last() is Tcp <==> carrier_at(
                self.chains@,
                first_carrier(use_tcp),
                self.chains@.len() - 1,
            ) is Tcp,
    {
        let ghost first = first_carrier(use_tcp);
        let mut use_tcp = use_tcp;
        let mut not_first_jump = false;
        let mut calls: Vec<HopCall> = Vec::new();
        let last = self.chains.len() - 1;
        let mut i: usize = 0;
        while i < last
            invariant
                i <= last,
                last == self.chains@.len() - 1,
                calls@.len() == i,
                not_first_jump == (i > 0),
                first_carrier(use_tcp) == carrier_at(self.chains@, first, i as int),
                forall|j: int| 0 <= j < i ==> #[trigger] calls@[j] == call_at(self.chains@, first, j),
            decreases last - i,
        {
            let tunnel = &self.chains[i];
            if use_tcp {
                if tunnel.tcp_transfer_type() == TcpTransferType::TcpOverUdp {
                    use_tcp = false;
                    calls.push(HopCall::TcpWithOutbound { outbound: Carrier::Udp });
                } else {
                    calls.push(HopCall::TcpWithOutbound { outbound: Carrier::Tcp });
                }
            } else {
                if tunnel.udp_transfer_type() == UdpTransferType::UdpOverTcp {
                    use_tcp = true;
                    calls.push(
                        HopCall::UdpWithOutbound { outbound: Carrier::Tcp, not_first: not_first_jump },
                    );
                } else {
                    calls.push(
                        HopCall::UdpWithOutbound { outbound: Carrier::Udp, not_first: not_first_jump },
                    );
                }
            }
            not_first_jump = true;
            i += 1;
        }
        if use_tcp {
            calls.push(HopCall::Tcp);
        } else {
            calls.push(HopCall::Udp { tunnel_only: true });
        }
        calls
    }

    /// A chain says nothing of its own transport: its hops do.
    pub fn outbound_type(&self) -> (t: Option<OutboundType>)
        ensures
            t is None,
    {
        None
    }

    /// The calls for a flow that enters as a stream.
    pub fn spawn_tcp(&self) -> (calls: Vec<HopCall>)
        requires
            self.chains@.len() > 0,
        ensures
            calls@.len() == self.chains@.len(),
            forall|i: int|
                0 <= i < calls@.len() ==> #[trigger] calls@[i] == call_at(self.chains@, Carrier::Tcp, i),
    {
        self.spawn(true)
    }

    /// The calls for a flow that enters as datagrams.
    pub fn spawn_udp(&self) -> (calls: Vec<HopCall>)
        requires
            self.chains@.len() > 0,
        ensures
            calls@.len() == self.chains@.len(),
            forall|i: int|
                0 <= i < calls@.len() ==> #[trigger] calls@[i] == call_at(self.chains@, Carrier::Udp, i),
    {
        self.spawn(false)
    }

    /// A chain cannot be a hop before the last of another chain.
    pub fn spawn_tcp_with_outbound(&self) -> (r: Result<(), ChainError>)
        ensures
            r == Err::<(), ChainError>(ChainError::InvalidData),
    {
        Err(ChainError::InvalidData)
    }

    /// A chain cannot be a hop before the last of another chain.
    pub fn spawn_udp_with_outbound(&self) -> (r: Result<(), ChainError>)
        ensures
            r == Err::<(), ChainError>(ChainError::InvalidData),
    {
        Err(ChainError::InvalidData)
    }
}

/// The call on the last hop is the one of the carrier that arrives there: a
/// stream is handed over as a stream, datagrams as datagrams; and a hop
/// before the last is handed the carrier that the hop before it writes to.
pub proof fn carrier_invariant(chains: Seq<OutboundType>, first: Carrier, i: int)
    requires
        0 <= i < chains.len(),
    ensures
        i == chains.len() - 1 ==> (call_at(chains, first, i) is Tcp <==> carrier_at(chains, first, i) is Tcp),
        i == chains.len() - 1 ==> (call_at(chains, first, i) is Udp <==> carrier_at(chains, first, i) is Udp),
        i < chains.len() - 1 ==> (call_at(chains, first, i) is TcpWithOutbound <==> carrier_at(
            chains,
            first,
            i,
        ) is Tcp),
        i < chains.len() - 1 ==> match call_at(chains, first, i) {
            HopCall::TcpWithOutbound { outbound } => outbound == carrier_at(chains, first, i + 1),
            HopCall::UdpWithOutbound { outbound, .. } => outbound == carrier_at(chains, first, i + 1),
            _ => false,
        },
{
}

} // verus!
