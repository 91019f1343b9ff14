//! Flows and the compiled rules that are matched against them.

use crate::addr::{IpAddress, NetworkAddr, NetworkAddrView, NetworkType, SockAddr};
use crate::text::{bytes_eq, contains, ends_with, find, occurs_at, occurs_in, str_prefix, utf8};
use vstd::prelude::*;

verus! {

/// Where a flow entered: the TUN device, or an HTTP or SOCKS5 inbound, which
/// may be one of a named user.
#[derive(Debug)]
pub enum InboundInfo {
    Tun,
    HttpAny,
    Socks5Any,
    Http(Option<String>),
    Socks5(Option<String>),
}

/// An `InboundInfo` with the user's name as a sequence of characters.
pub enum InboundInfoView {
    Tun,
    HttpAny,
    Socks5Any,
    Http(Option<Seq<char>>),
    Socks5(Option<Seq<char>>),
}

/// The name of a user as a sequence of characters.
pub open spec fn user_view(u: Option<String>) -> Option<Seq<char>> {
    match u {
        Some(s) => Some(s@),
        None => None,
    }
}

impl View for InboundInfo {
    type V = InboundInfoView;

    open spec fn view(&self) -> InboundInfoView {
        match self {
            InboundInfo::Tun => InboundInfoView::Tun,
            InboundInfo::HttpAny => InboundInfoView::HttpAny,
            InboundInfo::Socks5Any => InboundInfoView::Socks5Any,
            InboundInfo::Http(u) => InboundInfoView::Http(user_view(*u)),
            InboundInfo::Socks5(u) => InboundInfoView::Socks5(user_view(*u)),
        }
    }
}

/// Whether two optional names are equal.
fn user_eq(a: &Option<String>, b: &Option<String>) -> (r: bool)
    ensures
        r == (user_view(*a) == user_view(*b)),
{
    match (a, b) {
        (Some(x), Some(y)) => *x == *y,
        (None, None) => true,
        _ => false,
    }
}

impl PartialEq for InboundInfo {
    fn eq(&self, other: &InboundInfo) -> (r: bool) {
        match (self, other) {
            (InboundInfo::Tun, InboundInfo::Tun) => true,
            (InboundInfo::HttpAny, InboundInfo::HttpAny) => true,
            (InboundInfo::Socks5Any, InboundInfo::Socks5Any) => true,
            (InboundInfo::Http(a), InboundInfo::Http(b)) => user_eq(a, b),
            (InboundInfo::Socks5(a), InboundInfo::Socks5(b)) => user_eq(a, b),
            _ => false,
        }
    }
}

impl vstd::std_specs::cmp::PartialEqSpecImpl for InboundInfo {
    open spec fn obeys_eq_spec() -> bool {
        true
    }

    open spec fn eq_spec(&self, other: &InboundInfo) -> bool {
        self@ == other@
    }
}

/// Whether `k` is the first position at which `s` holds `pat`.
pub open spec fn is_first_occurrence(s: Seq<u8>, pat: Seq<u8>, k: int) -> bool {
    occurs_at(s, pat, k) && forall|j: int| 0 <= j < k ==> !occurs_at(s, pat, j)
}

/// Whether `b` ends with `tail` and `user` is what stands before the first
/// `tail` in it.
pub open spec fn names_user(b: Seq<u8>, tail: Seq<u8>, user: Seq<char>) -> bool {
    occurs_at(b, tail, b.len() - tail.len()) && exists|k: int| #[trigger]
        is_first_occurrence(b, tail, k) && utf8(user) == b.subrange(0, k)
}

/// Whether the text with bytes `b` denotes the inbound `i`.
pub open spec fn inbound_denoted(b: Seq<u8>, i: InboundInfoView) -> bool {
    if b == utf8("tun"@) {
        i is Tun
    } else if b == utf8("http"@) {
        i is HttpAny
    } else if b == utf8("socks5"@) {
        i is Socks5Any
    } else if occurs_at(b, utf8("/http"@), b.len() - utf8("/http"@).len()) {
        i matches InboundInfoView::Http(Some(u)) && names_user(b, utf8("/http"@), u)
    } else if occurs_at(b, utf8("/socks5"@), b.len() - utf8("/socks5"@).len()) {
        i matches InboundInfoView::Socks5(Some(u)) && names_user(b, utf8("/socks5"@), u)
    } else {
        false
    }
}

/// Whether the text with bytes `b` denotes an inbound.
pub open spec fn is_inbound_text(b: Seq<u8>) -> bool {
    ||| b == utf8("tun"@)
    ||| b == utf8("http"@)
    ||| b == utf8("socks5"@)
    ||| occurs_at(b, utf8("/http"@), b.len() - utf8("/http"@).len())
    ||| occurs_at(b, utf8("/socks5"@), b.len() - utf8("/socks5"@).len())
}

/// The first byte of a text that `s` holds at `k`, where the text begins
/// with `/`.
proof fn slash_at(s: Seq<u8>, pat: Seq<u8>, k: int)
    requires
        occurs_at(s, pat, k),
        pat.len() > 0,
        pat[0] == 0x2f,
    ensures
        0 <= k < s.len(),
        s[k] == 0x2f,
{
    assert(s.subrange(k, k + pat.len())[0] == s[k]);
}

proof fn tail_literals()
    ensures
        utf8("/http"@).len() == 5,
        utf8("/http"@)[0] == 0x2f,
        utf8("/socks5"@).len() == 7,
        utf8("/socks5"@)[0] == 0x2f,
{
    reveal_strlit("/http");
    reveal_strlit("/socks5");
    vstd::string::is_ascii_spec_bytes("/http");
    vstd::string::is_ascii_spec_bytes("/socks5");
    assert(vstd::string::is_ascii("/http"));
    assert(vstd::string::is_ascii("/socks5"));
}

impl InboundInfo {
    /// Reads an inbound from its text: `tun`, `http`, `socks5`, or the name
    /// of a user followed by `/http` or `/socks5`.
    pub fn parse(s: &str) -> (r: Option<InboundInfo>)
        ensures
            match r {
                Some(i) => inbound_denoted(utf8(s@), i@),
                None => !is_inbound_text(utf8(s@)),
            },
    {
        let b = s.as_bytes();
        if bytes_eq(b, "tun".as_bytes()) {
            Some(InboundInfo::Tun)
        } else if bytes_eq(b, "http".as_bytes()) {
            Some(InboundInfo::HttpAny)
        } else if bytes_eq(b, "socks5".as_bytes()) {
            Some(InboundInfo::Socks5Any)
        } else if ends_with(b, "/http".as_bytes()) {
            match find(b, "/http".as_bytes()) {
                Some(k) => {
                    proof {
                        tail_literals();
                        slash_at(b@, utf8("/http"@), k as int);
                    }
                    let u = str_prefix(s, k);
                    assert(is_first_occurrence(b@, utf8("/http"@), k as int));
                    Some(InboundInfo::Http(Some(u)))
                },
                None => None,
            }
        } else if ends_with(b, "/socks5".as_bytes()) {
            match find(b, "/socks5".as_bytes()) {
                Some(k) => {
                    proof {
                        tail_literals();
                        slash_at(b@, utf8("/socks5"@), k as int);
                    }
                    let u = str_prefix(s, k);
                    assert(is_first_occurrence(b@, utf8("/socks5"@), k as int));
                    Some(InboundInfo::Socks5(Some(u)))
                },
                None => None,
            }
        } else {
            None
        }
    }

    /// Whether every flow of this inbound is one of `rhs`: the two are equal,
    /// or `rhs` stands for all inbounds of this one's protocol.
    pub open spec fn spec_is_subset_of(&self, rhs: &InboundInfo) -> bool {
        self@ == rhs@ || match self {
            InboundInfo::Http(_) => *rhs is HttpAny,
            InboundInfo::Socks5(_) => *rhs is Socks5Any,
            _ => false,
        }
    }

    #[verifier::when_used_as_spec(spec_is_subset_of)]
    pub fn is_subset_of(&self, rhs: &InboundInfo) -> (b: bool)
        ensures
            b == self.spec_is_subset_of(rhs),
    {
        *self == *rhs || match self {
            InboundInfo::Http(_) => match rhs {
                InboundInfo::HttpAny => true,
                _ => false,
            },
            InboundInfo::Socks5(_) => match rhs {
                InboundInfo::Socks5Any => true,
                _ => false,
            },
            _ => false,
        }
    }
}

impl std::str::FromStr for InboundInfo {
    type Err = ();

    fn from_str(s: &str) -> (r: Result<InboundInfo, ()>)
        ensures
            match r {
                Ok(i) => inbound_denoted(utf8(s@), i@),
                Err(_) => !is_inbound_text(utf8(s@)),
            },
    {
        match InboundInfo::parse(s) {
            Some(i) => Ok(i),
            None => Err(()),
        }
    }
}

/// The process that a flow comes from.
#[derive(Debug)]
pub struct ProcessInfo {
    pub pid: i32,
    pub path: String,
    pub name: String,
}

/// What is known of a flow when it is dispatched.
#[derive(Debug)]
pub struct ConnInfo {
    pub src: SockAddr,
    pub dst: NetworkAddr,
    pub inbound: InboundInfo,
    pub resolved_dst: Option<SockAddr>,
    pub connection_type: NetworkType,
    pub process_info: Option<ProcessInfo>,
}

/// The socket address of a destination: the address itself, or else what the
/// host name was resolved to.
pub open spec fn socketaddr_of(dst: NetworkAddrView, resolved: Option<SockAddr>) -> Option<SockAddr> {
    match dst {
        NetworkAddrView::Raw(s) => Some(s),
        NetworkAddrView::DomainName { .. } => resolved,
    }
}

impl ConnInfo {
    /// The socket address of the destination, as far as it is known.
    pub fn socketaddr(&self) -> (r: Option<&SockAddr>)
        ensures
            match r {
                Some(s) => socketaddr_of(self.dst@, self.resolved_dst) == Some(*s),
                None => socketaddr_of(self.dst@, self.resolved_dst) is None,
            },
    {
        match &self.dst {
            NetworkAddr::Raw(s) => Some(s),
            NetworkAddr::DomainName { .. } => self.resolved_dst.as_ref(),
        }
    }
}

/// Whether the IPv4 address `a` lies in the network `net` with a prefix of
/// `prefix` bits.
pub open spec fn in_network(a: u32, net: u32, prefix: u8) -> bool {
    prefix <= 32 && (prefix == 0 || (a >> ((32 - prefix) as u32)) == (net >> ((32 - prefix) as u32)))
}

/// Whether host name `name` is `suffix` or ends with a dot and `suffix`.
pub open spec fn has_domain_suffix(name: Seq<u8>, suffix: Seq<u8>) -> bool {
    occurs_at(name, suffix, name.len() - suffix.len()) && (name.len() == suffix.len()
        || name[name.len() - suffix.len() - 1] == 0x2e)
}

/// One test on a flow.
#[derive(Debug)]
pub enum Condition {
    /// The destination is this host name.
    Domain(Vec<u8>),
    /// The destination is this host name or a host below it.
    DomainSuffix(Vec<u8>),
    /// The destination is a host name that holds this text.
    DomainKeyword(Vec<u8>),
    /// The destination is an IPv4 address in this network.
    IpCidr { net: u32, prefix: u8 },
    /// The destination has this port.
    DstPort(u16),
    /// The flow comes from a process of this name.
    ProcessName(Vec<u8>),
    /// The flow entered by this inbound.
    Inbound(InboundInfo),
    /// One of the conditions of the rule set at this index holds.
    RuleSet(usize),
}

/// A named list of conditions.
#[derive(Debug)]
pub struct RuleSet {
    pub name: String,
    pub conditions: Vec<Condition>,
}

impl Condition {
    /// Whether the condition holds of the flow, where a reference to a rule
    /// set counts as not holding.
    pub open spec fn holds_plainly(self, info: ConnInfo) -> bool {
        match self {
            Condition::Domain(d) => info.dst@ matches NetworkAddrView::DomainName { domain_name, .. }
                && utf8(domain_name) == d@,
            Condition::DomainSuffix(d) => info.dst@ matches NetworkAddrView::DomainName {
                domain_name,
                ..
            } && has_domain_suffix(utf8(domain_name), d@),
            Condition::DomainKeyword(d) => info.dst@ matches NetworkAddrView::DomainName {
                domain_name,
                ..
            } && occurs_in(utf8(domain_name), d@),
            Condition::IpCidr { net, prefix } => socketaddr_of(info.dst@, info.resolved_dst) matches Some(s)
                && s.ip matches IpAddress::V4(a) && in_network(a, net, prefix),
            Condition::DstPort(p) => match info.dst@ {
                NetworkAddrView::Raw(s) => s.port == p,
                NetworkAddrView::DomainName { port, .. } => port == p,
            },
            Condition::ProcessName(n) => info.process_info matches Some(p) && utf8(p.name@) == n@,
            Condition::Inbound(i) => info.inbound.spec_is_subset_of(&i),
            Condition::RuleSet(_) => false,
        }
    }

    /// Whether the condition holds of the flow.
    pub open spec fn holds(self, sets: Seq<RuleSet>, info: ConnInfo) -> bool {
        match self {
            Condition::RuleSet(k) => k < sets.len() && exists|j: int|
                0 <= j < sets[k as int].conditions.len() && (#[trigger] sets[k as int].conditions[j]).holds_plainly(info),
            _ => self.holds_plainly(info),
        }
    }

    /// Whether the condition holds of the flow, where a reference to a rule
    /// set counts as not holding.
    pub fn matches_plainly(&self, info: &ConnInfo) -> (b: bool)
        ensures
            b == self.holds_plainly(*info),
    {
        match self {
            Condition::Domain(d) => match &info.dst {
                NetworkAddr::DomainName { domain_name, .. } => bytes_eq(
                    domain_name.as_str().as_bytes(),
                    d.as_slice(),
                ),
                NetworkAddr::Raw(_) => false,
            },
            Condition::DomainSuffix(d) => match &info.dst {
                NetworkAddr::DomainName { domain_name, .. } => {
                    let name = domain_name.as_str().as_bytes();
                    ends_with(name, d.as_slice()) && (name.len() == d.len() || name[name.len()
                        - d.len() - 1] == 0x2e)
                },
                NetworkAddr::Raw(_) => false,
            },
            Condition::DomainKeyword(d) => match &info.dst {
                NetworkAddr::DomainName { domain_name, .. } => contains(
                    domain_name.as_str().as_bytes(),
                    d.as_slice(),
                ),
                NetworkAddr::Raw(_) => false,
            },
            Condition::IpCidr { net, prefix } => match info.socketaddr() {
                Some(s) => match s.ip {
                    IpAddress::V4(a) => {
                        if *prefix > 32 {
                            false
                        } else if *prefix == 0 {
                            true
                        } else {
                            let shift: u32 = (32 - *prefix) as u32;
                            (a >> shift) == (*net >> shift)
                        }
                    },
                    IpAddress::V6(_) => false,
                },
                None => false,
            },
            Condition::DstPort(p) => info.dst.port() == *p,
            Condition::ProcessName(n) => match &info.process_info {
                Some(p) => bytes_eq(p.name.as_str().as_bytes(), n.as_slice()),
                None => false,
            },
            Condition::Inbound(i) => info.inbound.is_subset_of(i),
            Condition::RuleSet(_) => false,
        }
    }

    /// Whether the condition holds of the flow.
    #[verifier::loop_isolation(false)]
    pub fn matches(&self, sets: &Vec<RuleSet>, info: &ConnInfo) -> (b: bool)
        ensures
            b == self.holds(sets@, *info),
    {
        match self {
            Condition::RuleSet(k) => {
                if *k >= sets.len() {
                    return false;
                }
                let set = &sets[*k];
                let mut j: usize = 0;
                while j < set.conditions.len()
                    invariant
                        j <= set.conditions.len(),
                        forall|i: int|
                            0 <= i < j ==> !(#[trigger] set.conditions[i]).holds_plainly(*info),
                    decreases set.conditions.len() - j,
                {
                    if set.conditions[j].matches_plainly(info) {
                        assert(sets@[*k as int].conditions[j as int].holds_plainly(*info));
                        return true;
                    }
                    j += 1;
                }
                false
            },
            _ => self.matches_plainly(info),
        }
    }
}

} // verus!
