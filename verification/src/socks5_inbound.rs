//! The SOCKS5 inbound: method negotiation, the user name and password
//! sub-negotiation, the head of a request and the reply.
//!
//! The negotiation is a state machine. Its caller reads from the client
//! the number of bytes that a step asks for, hands them to the next step,
//! and writes to the client what a step tells it to write. The constants
//! are those of RFC 1928 and RFC 1929.

use crate::addr::{IpAddress, SockAddr};
use crate::config::AuthData;
use crate::text::{bytes_eq, utf8};
use vstd::prelude::*;

verus! {

pub const SOCKS5_VERSION: u8 = 0x05;

/// The version of the user name and password sub-negotiation.
pub const AUTH_VERSION: u8 = 0x01;

pub const AUTH_METHOD_NONE: u8 = 0x00;

pub const AUTH_METHOD_PASSWORD: u8 = 0x02;

pub const AUTH_METHOD_NOT_ACCEPTABLE: u8 = 0xff;

pub const CMD_TCP_CONNECT: u8 = 0x01;

pub const CMD_UDP_ASSOCIATE: u8 = 0x03;

pub const ADDR_TYPE_IPV4: u8 = 0x01;

pub const ADDR_TYPE_IPV6: u8 = 0x04;

/// What a reply tells the client.
#[derive(Clone, Copy, Debug, PartialEq, Eq, Structural)]
pub enum ReplyError {
    Succeeded,
    GeneralFailure,
    ConnectionNotAllowed,
    NetworkUnreachable,
    HostUnreachable,
    ConnectionRefused,
    ConnectionTimeout,
    TtlExpired,
    CommandNotSupported,
    AddressTypeNotSupported,
}

/// Why a client was turned away.
#[derive(Clone, Copy, Debug, PartialEq, Eq, Structural)]
pub enum SocksError {
    UnsupportedSocksVersion(u8),
    /// The client offers no method that the inbound accepts.
    AuthMethodUnacceptable,
    /// The user name or the password is empty.
    AuthenticationFailed,
    /// The user name or the password is not the configured one.
    AuthenticationRejected,
    CommandNotSupported,
    /// The bytes handed over are not as many as were asked for, or the
    /// negotiation is over.
    UnexpectedInput,
}

/// What a client asks for.
#[derive(Clone, Copy, Debug, PartialEq, Eq, Structural)]
pub enum Command {
    TcpConnect,
    UdpAssociate,
}

/// Where the negotiation stands.
#[derive(Clone, Copy, Debug, PartialEq, Eq, Structural)]
pub enum Phase {
    /// The version and the number of methods are awaited; where the version
    /// was read before, only the number.
    Greeting { version: Option<u8> },
    /// That many methods are awaited.
    Methods { count: u8 },
    /// The version of the sub-negotiation and the length of the user name
    /// are awaited.
    AuthHead,
    /// A user name of that length is awaited.
    Username { len: u8 },
    /// The length of the password is awaited.
    PasswordLen { user_ok: bool },
    /// A password of that length is awaited.
    Password { user_ok: bool, len: u8 },
    /// The client may send its request.
    Done,
    /// The client was turned away.
    Failed,
}

/// What the caller is to do next.
#[derive(Clone, Copy, Debug, PartialEq, Eq)]
pub enum Step {
    /// Read that many bytes and hand them over.
    Read { count: usize },
    /// Write the two bytes, then read that many bytes and hand them over.
    Reply { bytes: (u8, u8), count: usize },
    /// Write the two bytes; the client may send its request.
    Finished { bytes: (u8, u8) },
    /// Write the two bytes, if there are any, and close.
    Fail { bytes: Option<(u8, u8)>, error: SocksError },
}

/// The number of bytes that a phase awaits.
pub open spec fn awaited(phase: Phase) -> Option<int> {
    match phase {
        Phase::Greeting { version } => Some(if version is Some { 1int } else { 2int }),
        Phase::Methods { count } => Some(count as int),
        Phase::AuthHead => Some(2),
        Phase::Username { len } => Some(len as int),
        Phase::PasswordLen { .. } => Some(1),
        Phase::Password { len, .. } => Some(len as int),
        Phase::Done => None,
        Phase::Failed => None,
    }
}

/// The method that the inbound accepts: user name and password where
/// credentials are configured, else none.
pub open spec fn accepted_method(with_auth: bool) -> u8 {
    if with_auth {
        AUTH_METHOD_PASSWORD
    } else {
        AUTH_METHOD_NONE
    }
}

/// The phase and the step that follow when `input` arrives in `phase`.
/// `user` and `password` are the bytes of the configured credentials.
pub open spec fn next(
    phase: Phase,
    auth: Option<(Seq<u8>, Seq<u8>)>,
    input: Seq<u8>,
) -> (Phase, Step) {
    if awaited(phase) != Some(input.len() as int) {
        (Phase::Failed, Step::Fail { bytes: None, error: SocksError::UnexpectedInput })
    } else {
        match phase {
            Phase::Greeting { version } => {
                let v = if version is Some {
                    version->0
                } else {
                    input[0]
                };
                let count = input.last();
                if v != SOCKS5_VERSION {
                    (
                        Phase::Failed,
                        Step::Fail { bytes: None, error: SocksError::UnsupportedSocksVersion(v) },
                    )
                } else {
                    (Phase::Methods { count }, Step::Read { count: count as usize })
                }
            },
            Phase::Methods { .. } => {
                let method = accepted_method(auth is Some);
                if !input.contains(method) {
                    (
                        Phase::Failed,
                        Step::Fail {
                            bytes: Some((SOCKS5_VERSION, AUTH_METHOD_NOT_ACCEPTABLE)),
                            error: SocksError::AuthMethodUnacceptable,
                        },
                    )
                } else if auth is Some {
                    (Phase::AuthHead, Step::Reply { bytes: (SOCKS5_VERSION, method), count: 2 })
                } else {
                    (Phase::Done, Step::Finished { bytes: (SOCKS5_VERSION, method) })
                }
            },
            Phase::AuthHead => {
                if input[0] != AUTH_VERSION {
                    (
                        Phase::Failed,
                        Step::Fail { bytes: None, error: SocksError::UnsupportedSocksVersion(input[0]) },
                    )
                } else if input[1] < 1 {
                    (
                        Phase::Failed,
                        Step::Fail { bytes: None, error: SocksError::AuthenticationFailed },
                    )
                } else {
                    (Phase::Username { len: input[1] }, Step::Read { count: input[1] as usize })
                }
            },
            Phase::Username { .. } => (
                Phase::PasswordLen { user_ok: auth is Some && input == user_of(auth->0) },
                Step::Read { count: 1 },
            ),
            Phase::PasswordLen { user_ok } => {
                if input[0] < 1 {
                    (
                        Phase::Failed,
                        Step::Fail { bytes: None, error: SocksError::AuthenticationFailed },
                    )
                } else {
                    (
                        Phase::Password { user_ok, len: input[0] },
                        Step::Read { count: input[0] as usize },
                    )
                }
            },
            Phase::Password { user_ok, .. } => {
                if user_ok && auth is Some && input == password_of(auth->0) {
                    (Phase::Done, Step::Finished { bytes: (AUTH_VERSION, 0x00) })
                } else {
                    (
                        Phase::Failed,
                        Step::Fail {
                            bytes: Some((AUTH_VERSION, AUTH_METHOD_NOT_ACCEPTABLE)),
                            error: SocksError::AuthenticationRejected,
                        },
                    )
                }
            },
            Phase::Done => (Phase::Failed, Step::Fail { bytes: None, error: SocksError::UnexpectedInput }),
            Phase::Failed => (
                Phase::Failed,
                Step::Fail { bytes: None, error: SocksError::UnexpectedInput },
            ),
        }
    }
}

/// The user name of credentials.
pub open spec fn user_of(auth: (Seq<u8>, Seq<u8>)) -> Seq<u8> {
    auth.0
}

/// The password of credentials.
pub open spec fn password_of(auth: (Seq<u8>, Seq<u8>)) -> Seq<u8> {
    auth.1
}

/// The bytes of configured credentials.
pub open spec fn credential_bytes(auth: Option<AuthData>) -> Option<(Seq<u8>, Seq<u8>)> {
    match auth {
        Some(a) => Some((utf8(a.username@), utf8(a.password@))),
        None => None,
    }
}

/// Whether `s` holds the byte `b`.
pub fn holds_byte(s: &[u8], b: u8) -> (r: bool)
    ensures
        r == s@.contains(b),
{
    let mut i: usize = 0;
    while i < s.len()
        invariant
            i <= s.len(),
            forall|j: int| 0 <= j < i ==> s@[j] != b,
        decreases s.len() - i,
    {
        if s[i] == b {
            return true;
        }
        i += 1;
    }
    false
}

/// The SOCKS5 inbound of a port.
#[derive(Debug)]
pub struct Socks5Inbound {
    pub port: u16,
    pub auth: Option<AuthData>,
}

/// The negotiation with one client.
#[derive(Debug)]
pub struct Negotiation {
    pub phase: Phase,
}

impl Socks5Inbound {
    /// The inbound of the port, which asks for the credentials, if there
    /// are any.
    pub fn new(port: u16, auth: Option<AuthData>) -> (r: Socks5Inbound)
        ensures
            r.port == port,
            r.auth == auth,
    {
        Socks5Inbound { port, auth }
    }

    /// Begins the negotiation with a client, of which the first byte may
    /// have been read before. The step says how many bytes to read.
    pub fn process_auth(&self, first_byte: Option<u8>) -> (r: (Negotiation, Step))
        ensures
            r.0.phase == (Phase::Greeting { version: first_byte }),
            r.1 == (Step::Read { count: if first_byte is Some { 1usize } else { 2usize } }),
    {
        let count: usize = if first_byte.is_some() {
            1
        } else {
            2
        };
        (Negotiation { phase: Phase::Greeting { version: first_byte } }, Step::Read { count })
    }

    /// Takes the bytes that the last step asked for, and says what to do
    /// next.
    pub fn advance(&self, state: &mut Negotiation, input: &[u8]) -> (step: Step)
        ensures
            (final(state).phase, step) == next(old(state).phase, credential_bytes(self.auth), input@),
    {
        let phase = state.phase;
        let expected: Option<usize> = match phase {
            Phase::Greeting { version } => Some(if version.is_some() { 1 } else { 2 }),
            Phase::Methods { count } => Some(count as usize),
            Phase::AuthHead => Some(2),
            Phase::Username { len } => Some(len as usize),
            Phase::PasswordLen { .. } => Some(1),
            Phase::Password { len, .. } => Some(len as usize),
            Phase::Done => None,
            Phase::Failed => None,
        };
        let fits = match expected {
            Some(n) => n == input.len(),
            None => false,
        };
        if !fits {
            state.phase = Phase::Failed;
            return Step::Fail { bytes: None, error: SocksError::UnexpectedInput };
        }
        let (after, step) = match phase {
            Phase::Greeting { version } => {
                let v = match version {
                    Some(v) => v,
                    None => input[0],
                };
                let count = input[input.len() - 1];
                if v != SOCKS5_VERSION {
                    (
                        Phase::Failed,
                        Step::Fail { bytes: None, error: SocksError::UnsupportedSocksVersion(v) },
                    )
                } else {
                    (Phase::Methods { count }, Step::Read { count: count as usize })
                }
            },
            Phase::Methods { .. } => {
                let method = if self.auth.is_some() {
                    AUTH_METHOD_PASSWORD
                } else {
                    AUTH_METHOD_NONE
                };
                if !holds_byte(input, method) {
                    (
                        Phase::Failed,
                        Step::Fail {
                            bytes: Some((SOCKS5_VERSION, AUTH_METHOD_NOT_ACCEPTABLE)),
                            error: SocksError::AuthMethodUnacceptable,
                        },
                    )
                } else if self.auth.is_some() {
                    (Phase::AuthHead, Step::Reply { bytes: (SOCKS5_VERSION, method), count: 2 })
                } else {
                    (Phase::Done, Step::Finished { bytes: (SOCKS5_VERSION, method) })
                }
            },
            Phase::AuthHead => {
                if input[0] != AUTH_VERSION {
                    (
                        Phase::Failed,
                        Step::Fail { bytes: None, error: SocksError::UnsupportedSocksVersion(input[0]) },
                    )
                } else if input[1] < 1 {
                    (
                        Phase::Failed,
                        Step::Fail { bytes: None, error: SocksError::AuthenticationFailed },
                    )
                } else {
                    (Phase::Username { len: input[1] }, Step::Read { count: input[1] as usize })
                }
            },
            Phase::Username { .. } => {
                let user_ok = match &self.auth {
                    Some(a) => bytes_eq(input, a.username.as_str().as_bytes()),
                    None => false,
                };
                (Phase::PasswordLen { user_ok }, Step::Read { count: 1 })
            },
            Phase::PasswordLen { user_ok } => {
                if input[0] < 1 {
                    (
                        Phase::Failed,
                        Step::Fail { bytes: None, error: SocksError::AuthenticationFailed },
                    )
                } else {
                    (
                        Phase::Password { user_ok, len: input[0] },
                        Step::Read { count: input[0] as usize },
                    )
                }
            },
            Phase::Password { user_ok, .. } => {
                let pass_ok = match &self.auth {
                    Some(a) => bytes_eq(input, a.password.as_str().as_bytes()),
                    None => false,
                };
                if user_ok && pass_ok {
                    (Phase::Done, Step::Finished { bytes: (AUTH_VERSION, 0x00) })
                } else {
                    (
                        Phase::Failed,
                        Step::Fail {
                            bytes: Some((AUTH_VERSION, AUTH_METHOD_NOT_ACCEPTABLE)),
                            error: SocksError::AuthenticationRejected,
                        },
                    )
                }
            },
            Phase::Done => (Phase::Failed, Step::Fail { bytes: None, error: SocksError::UnexpectedInput }),
            Phase::Failed => (
                Phase::Failed,
                Step::Fail { bytes: None, error: SocksError::UnexpectedInput },
            ),
        };
        state.phase = after;
        step
    }

    /// Reads the four bytes at the head of a request: the command as it was
    /// sent and the type of the address that follows.
    pub fn request_head(input: &[u8]) -> (r: Result<(u8, u8), SocksError>)
        ensures
            r == if input@.len() != 4 {
                Err::<(u8, u8), SocksError>(SocksError::UnexpectedInput)
            } else if input@[0] != SOCKS5_VERSION {
                Err(SocksError::UnsupportedSocksVersion(input@[0]))
            } else {
                Ok((input@[1], input@[3]))
            },
    {
        if input.len() != 4 {
            Err(SocksError::UnexpectedInput)
        } else if input[0] != SOCKS5_VERSION {
            Err(SocksError::UnsupportedSocksVersion(input[0]))
        } else {
            Ok((input[1], input[3]))
        }
    }

    /// The command that a byte stands for. The inbound supports `CONNECT`
    /// and `UDP ASSOCIATE`.
    pub fn command(cmd: u8) -> (r: Result<Command, SocksError>)
        ensures
            r == if cmd == CMD_TCP_CONNECT {
                Ok::<Command, SocksError>(Command::TcpConnect)
            } else if cmd == CMD_UDP_ASSOCIATE {
                Ok(Command::UdpAssociate)
            } else {
                Err(SocksError::CommandNotSupported)
            },
    {
        if cmd == CMD_TCP_CONNECT {
            Ok(Command::TcpConnect)
        } else if cmd == CMD_UDP_ASSOCIATE {
            Ok(Command::UdpAssociate)
        } else {
            Err(SocksError::CommandNotSupported)
        }
    }

    /// The reply to a request: the version, the code of `error`, a zero
    /// byte, the type of the address, the address and the port, each most
    /// significant byte first.
    pub fn new_reply(error: ReplyError, sock_addr: SockAddr) -> (reply: Vec<u8>)
        ensures
            reply@ == seq![SOCKS5_VERSION, error.spec_as_u8(), 0x00u8, addr_type(sock_addr.ip)]
                + ip_octets(sock_addr.ip) + port_octets(sock_addr.port),
    {
        let mut reply: Vec<u8> = Vec::new();
        reply.push(SOCKS5_VERSION);
        reply.push(error.as_u8());
        reply.push(0x00);
        match sock_addr.ip {
            IpAddress::V4(bits) => {
                reply.push(ADDR_TYPE_IPV4);
                push_octets(&mut reply, bits as u128, 4);
            },
            IpAddress::V6(bits) => {
                reply.push(ADDR_TYPE_IPV6);
                push_octets(&mut reply, bits, 16);
            },
        }
        let ghost head = reply@;
        reply.push((sock_addr.port / 256) as u8);
        reply.push((sock_addr.port % 256) as u8);
        assert(reply@ =~= head + port_octets(sock_addr.port));
        assert(head =~= seq![SOCKS5_VERSION, error.spec_as_u8(), 0x00u8, addr_type(sock_addr.ip)]
            + ip_octets(sock_addr.ip));
        reply
    }
}

/// Appends the `n` least significant octets of `value`, most significant
/// first.
pub fn push_octets(out: &mut Vec<u8>, value: u128, n: usize)
    ensures
        final(out)@ == old(out)@ + octets(value as nat, n as nat),
    decreases n,
{
    if n > 0 {
        push_octets(out, value / 256, n - 1);
        out.push((value % 256) as u8);
        assert(out@ =~= old(out)@ + octets(value as nat, n as nat));
    } else {
        assert(out@ =~= old(out)@ + octets(value as nat, 0));
    }
}

impl ReplyError {
    /// The code of the reply.
    pub open spec fn spec_as_u8(self) -> u8 {
        match self {
            ReplyError::Succeeded => 0x00,
            ReplyError::GeneralFailure => 0x01,
            ReplyError::ConnectionNotAllowed => 0x02,
            ReplyError::NetworkUnreachable => 0x03,
            ReplyError::HostUnreachable => 0x04,
            ReplyError::ConnectionRefused => 0x05,
            ReplyError::ConnectionTimeout => 0x06,
            ReplyError::TtlExpired => 0x06,
            ReplyError::CommandNotSupported => 0x07,
            ReplyError::AddressTypeNotSupported => 0x08,
        }
    }

    #[verifier::when_used_as_spec(spec_as_u8)]
    pub fn as_u8(self) -> (r: u8)
        ensures
            r == self.spec_as_u8(),
    {
        match self {
            ReplyError::Succeeded => 0x00,
            ReplyError::GeneralFailure => 0x01,
            ReplyError::ConnectionNotAllowed => 0x02,
            ReplyError::NetworkUnreachable => 0x03,
            ReplyError::HostUnreachable => 0x04,
            ReplyError::ConnectionRefused => 0x05,
            ReplyError::ConnectionTimeout => 0x06,
            ReplyError::TtlExpired => 0x06,
            ReplyError::CommandNotSupported => 0x07,
            ReplyError::AddressTypeNotSupported => 0x08,
        }
    }
}

/// The type of an address in a reply.
pub open spec fn addr_type(ip: IpAddress) -> u8 {
    match ip {
        IpAddress::V4(_) => ADDR_TYPE_IPV4,
        IpAddress::V6(_) => ADDR_TYPE_IPV6,
    }
}

/// The `n` least significant octets of `value`, most significant first.
pub open spec fn octets(value: nat, n: nat) -> Seq<u8>
    decreases n,
{
    if n == 0 {
        Seq::empty()
    } else {
        octets(value / 256, (n - 1) as nat).push((value % 256) as u8)
    }
}

/// The octets of an address, most significant first.
pub open spec fn ip_octets(ip: IpAddress) -> Seq<u8> {
    match ip {
        IpAddress::V4(bits) => octets(bits as nat, 4),
        IpAddress::V6(bits) => octets(bits as nat, 16),
    }
}

/// The two octets of a port, most significant first.
pub open spec fn port_octets(port: u16) -> Seq<u8> {
    seq![(port / 256) as u8, (port % 256) as u8]
}

} // verus!
