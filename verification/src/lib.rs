//! The flow plane of a transparent layer-4 proxy, with its contracts.
//!
//! A flow that is captured from a TUN device, or that enters by the HTTP or
//! the SOCKS5 inbound, is matched against an ordered rule list and sent to a
//! proxy, or through a chain of proxies. This library holds the rules of
//! that plane as functions on plain values. Sockets, files, clocks and tasks
//! are the caller's: the caller hands over what it read and does what it is
//! told.
//!
//! - `session`: the session NAT, which maps a hijacked flow to a port of the
//!   local listener and back; `fake_ip`: the addresses that stand for host
//!   names; `tun_inbound`: how a flow is recovered from both.
//! - `config`, `builder`, `groups`, `compile`: from a configuration to the
//!   table of proxies and groups and to the compiled rules.
//! - `proxy`, `rule`, `dispatching`, `engine`: the table, the conditions on
//!   a flow, and the decision where a flow is sent.
//! - `chain`: the calls on the hops of a chain of outbounds;
//!   `shadowsocks`: where the Shadowsocks outbound connects to.
//! - `http_inbound`, `socks5_inbound`: what the inbounds answer.
//! - `smol`, `connector`, `buf_pool`: the tasks of the userspace IP stack,
//!   the queues between the two sides of a flow, and the packet buffers.
//! - `startup`: where the files are, and the kinds of rewrite rule.
//! - `addr`, `text`: addresses and byte strings.
//! - `trusted`: what is taken on trust from the crates that are called.

pub mod addr;
pub mod buf_pool;
pub mod builder;
pub mod chain;
pub mod compile;
pub mod config;
pub mod connector;
pub mod dispatching;
pub mod engine;
pub mod fake_ip;
pub mod groups;
pub mod http_inbound;
pub mod proxy;
pub mod rule;
pub mod session;
pub mod shadowsocks;
pub mod smol;
pub mod socks5_inbound;
pub mod startup;
pub mod text;
pub mod trusted;
pub mod tun_inbound;
