//! The configuration that a dispatching is built from, as plain values.

use crate::addr::{IpAddress, SockAddr};
use linked_hash_map::LinkedHashMap;
use vstd::prelude::*;

verus! {

/// A user name and a password.
#[derive(Debug)]
pub struct AuthData {
    pub username: String,
    pub password: String,
}

/// The host of a proxy server.
#[derive(Debug)]
pub enum RawServerAddr {
    IpAddr(IpAddress),
    DomainName(String),
}

/// The endpoint of a WireGuard peer: a socket address, or `host:port` as text.
#[derive(Debug)]
pub enum RawServerSockAddr {
    Ip(SockAddr),
    Domain(String),
}

/// One configured proxy, before it is checked.
#[derive(Debug)]
pub enum RawProxyLocalCfg {
    Http { server: RawServerAddr, port: u16, auth: Option<AuthData> },
    Socks5 { server: RawServerAddr, port: u16, auth: Option<AuthData>, udp: bool },
    Shadowsocks { server: RawServerAddr, port: u16, password: String, cipher: String, udp: bool },
    Trojan {
        server: RawServerAddr,
        port: u16,
        sni: String,
        password: String,
        skip_cert_verify: bool,
        websocket_path: Option<String>,
        udp: bool,
    },
    Wireguard {
        local_addr: IpAddress,
        private_key: String,
        public_key: String,
        endpoint: RawServerSockAddr,
        mtu: usize,
        preshared_key: Option<String>,
        keepalive: Option<u16>,
        dns: Vec<IpAddress>,
        reserved: Option<[u8; 3]>,
    },
}

/// A provider that a group draws proxies from: all of them, or those whose
/// name a regular expression matches.
#[derive(Debug)]
pub enum RawProxyProviderOption {
    Name(String),
    Filter { name: String, filter: String },
}

/// One configured proxy group. It either lists `chains`, the hops of a proxy
/// chain, or it is a selection among `proxies` and `providers`.
#[derive(Debug)]
pub struct RawProxyGroupCfg {
    pub proxies: Option<Vec<String>>,
    pub providers: Option<Vec<RawProxyProviderOption>>,
    pub chains: Option<Vec<String>>,
    pub interface: Option<String>,
}

/// A proxy of a provider, with its name.
#[derive(Debug)]
pub struct RawProxyWithName {
    pub name: String,
    pub cfg: RawProxyLocalCfg,
}

/// What a proxy provider holds.
#[derive(Debug)]
pub struct ProxySchema {
    pub proxies: Vec<RawProxyWithName>,
}

/// A proxy provider under its name.
#[derive(Debug)]
pub struct NamedProxySchema {
    pub name: String,
    pub schema: ProxySchema,
}

/// A sub-dispatch: where `matches` holds of a flow, `subrules` decide.
#[derive(Debug)]
pub struct RawSubDispatch {
    pub matches: String,
    pub subrules: Vec<RuleConfigLine>,
}

/// A rule line that is more than a literal.
#[derive(Debug)]
pub enum RuleAction {
    LocalResolve,
    SubDispatch(RawSubDispatch),
}

/// One line of a rule list.
#[derive(Debug)]
pub enum RuleConfigLine {
    Complex(RuleAction),
    Simple(String),
}

/// The member that was last selected in a group.
#[derive(Debug)]
pub struct GroupSelection {
    pub group: String,
    pub proxy: String,
}

/// What is kept between two runs.
#[derive(Debug)]
pub struct RawState {
    pub group_selection: Vec<GroupSelection>,
    pub temporary_list: Option<Vec<RuleConfigLine>>,
}

/// The part of the root configuration that dispatching reads.
#[derive(Debug)]
pub struct RawRootCfg {
    pub proxy_local: Vec<RawProxyWithName>,
    pub proxy_group: LinkedHashMap<String, RawProxyGroupCfg>,
    pub rule_local: Vec<RuleConfigLine>,
}

/// A configuration with its state and the contents of its providers.
#[derive(Debug)]
pub struct LoadedConfig {
    pub config: RawRootCfg,
    pub state: RawState,
    pub proxy_schema: Vec<NamedProxySchema>,
}

/// Where the rules of a rule provider come from.
#[derive(Debug)]
pub enum RuleProvider {
    File { path: String },
    Http { url: String, path: String, interval: u32 },
}

/// The rules of a rule provider.
#[derive(Debug)]
pub struct RuleSchema {
    pub payload: Vec<String>,
}

/// A script that rewrites intercepted traffic.
#[derive(Debug)]
pub struct ScriptActionConfig {
    pub name: Option<String>,
    pub pattern: String,
    pub script: String,
}

/// One action of an interception.
#[derive(Debug)]
pub enum ActionConfig {
    Script(ScriptActionConfig),
    Standard(String),
}

/// Which flows are intercepted, and what is done with them.
#[derive(Debug)]
pub struct InterceptionConfig {
    pub name: Option<String>,
    pub filters: Vec<String>,
    pub actions: Vec<ActionConfig>,
}

impl RawProxyGroupCfg {
    /// Whether the group is of one of the two shapes: a chain, or a
    /// selection among proxies and providers, and not both.
    pub open spec fn spec_roughly_validate(&self) -> bool {
        (self.proxies is Some || self.providers is Some) != (self.chains is Some)
    }

    #[verifier::when_used_as_spec(spec_roughly_validate)]
    pub fn roughly_validate(&self) -> (b: bool)
        ensures
            b == self.spec_roughly_validate(),
    {
        (self.proxies.is_some() || self.providers.is_some()) != self.chains.is_some()
    }
}

} // verus!
