//! Rule lists and how a flow is matched against them.

use crate::addr::{IpAddress, NetworkAddr, NetworkAddrView, NetworkType, SockAddr};
use crate::proxy::{resolve, supports_udp, Entry, GeneralProxy, ProxyTable, REJECT};
use crate::rule::{Condition, ConnInfo, RuleSet};
use vstd::prelude::*;

verus! {

/// A condition and the proxy or group that flows meeting it are sent to.
#[derive(Debug)]
pub struct Rule {
    pub condition: Condition,
    pub target: GeneralProxy,
}

/// A rule list of its own for the flows that meet a condition.
#[derive(Debug)]
pub struct SubDispatch {
    pub condition: Condition,
    pub snippet: DispatchingSnippet,
}

/// A line of a rule list that is no rule.
#[derive(Debug)]
pub enum Action {
    /// Resolves the destination's host name; matches no flow.
    LocalResolve,
    SubDispatch(SubDispatch),
}

/// One line of a compiled rule list.
#[derive(Debug)]
pub enum RuleOrAction {
    Rule(Rule),
    Action(Action),
}

/// An ordered rule list with the target of the flows that no rule matches.
#[derive(Debug)]
pub struct DispatchingSnippet {
    pub rules: Vec<RuleOrAction>,
    pub fallback: GeneralProxy,
}

/// A rule list without a fallback, consulted before the main one.
#[derive(Debug)]
pub struct TemporaryList {
    pub rules: Vec<RuleOrAction>,
}

/// Where a flow is sent: the index of a proxy in the table, and the interface
/// to bind to, if one is prescribed.
#[derive(Debug)]
pub struct Decision {
    pub proxy: usize,
    pub iface: Option<String>,
}

/// The flow `info` with `resolved` as its resolved destination.
pub open spec fn with_resolved(info: ConnInfo, resolved: Option<SockAddr>) -> ConnInfo {
    ConnInfo { resolved_dst: resolved, ..info }
}

/// What local resolution leaves as the resolved destination: the address
/// that the resolver answered, with the destination's port, where the
/// destination is a host name that was not resolved before.
pub open spec fn local_resolve(info: ConnInfo, answer: Option<IpAddress>) -> Option<SockAddr> {
    match (info.dst@, info.resolved_dst, answer) {
        (NetworkAddrView::DomainName { port, .. }, None, Some(ip)) => Some(SockAddr { ip, port }),
        _ => info.resolved_dst,
    }
}

/// What matching a rule list gives: the target of the first rule that
/// matched, if any did, and the resolved destination that the actions left.
pub struct Matched {
    pub target: Option<GeneralProxy>,
    pub resolved: Option<SockAddr>,
}

/// Matches the flow against the rules from position `from` on, in order. The
/// first rule whose condition holds decides. A sub-dispatch whose condition
/// holds decides by its own rules, or else by its own fallback.
pub open spec fn eval(
    rules: Seq<RuleOrAction>,
    from: int,
    sets: Seq<RuleSet>,
    info: ConnInfo,
    answer: Option<IpAddress>,
) -> Matched
    decreases rules, rules.len() - from,
{
    if 0 <= from < rules.len() {
        match rules[from] {
            RuleOrAction::Rule(r) => if r.condition.holds(sets, info) {
                Matched { target: Some(r.target), resolved: info.resolved_dst }
            } else {
                eval(rules, from + 1, sets, info, answer)
            },
            RuleOrAction::Action(Action::LocalResolve) => eval(
                rules,
                from + 1,
                sets,
                with_resolved(info, local_resolve(info, answer)),
                answer,
            ),
            RuleOrAction::Action(Action::SubDispatch(sub)) => if sub.condition.holds(sets, info) {
                let inner = eval(sub.snippet.rules@, 0, sets, info, answer);
                Matched {
                    target: Some(
                        match inner.target {
                            Some(t) => t,
                            None => sub.snippet.fallback,
                        },
                    ),
                    resolved: inner.resolved,
                }
            } else {
                eval(rules, from + 1, sets, info, answer)
            },
        }
    } else {
        Matched { target: None, resolved: info.resolved_dst }
    }
}

impl Condition {
    /// Whether a reference to a rule set is to one of the first `n` sets.
    pub open spec fn wf(self, n: int) -> bool {
        self matches Condition::RuleSet(k) ==> k < n
    }
}

/// Whether every target in the rules names an entry of the table, and every
/// rule set that they refer to is one of the first `n`.
pub open spec fn rules_wf(rules: Seq<RuleOrAction>, entries: Seq<Entry>, n: int) -> bool
    decreases rules, 1int,
{
    forall|i: int| 0 <= i < rules.len() ==> line_wf(#[trigger] rules[i], entries, n)
}

/// Whether the targets and the rule sets of one line exist.
pub open spec fn line_wf(line: RuleOrAction, entries: Seq<Entry>, n: int) -> bool
    decreases line, 0int,
{
    match line {
        RuleOrAction::Rule(r) => r.condition.wf(n) && r.target.valid(entries, entries.len() as int),
        RuleOrAction::Action(Action::LocalResolve) => true,
        RuleOrAction::Action(Action::SubDispatch(sub)) => {
            &&& sub.condition.wf(n)
            &&& sub.snippet.fallback.valid(entries, entries.len() as int)
            &&& rules_wf(sub.snippet.rules@, entries, n)
        },
    }
}

/// The target that matching leaves is one of the table.
pub proof fn eval_target_valid(
    rules: Seq<RuleOrAction>,
    from: int,
    sets: Seq<RuleSet>,
    info: ConnInfo,
    answer: Option<IpAddress>,
    entries: Seq<Entry>,
)
    requires
        rules_wf(rules, entries, sets.len() as int),
        0 <= from,
    ensures
        eval(rules, from, sets, info, answer).target matches Some(t) ==> t.valid(
            entries,
            entries.len() as int,
        ),
    decreases rules, rules.len() - from,
{
    if from < rules.len() {
        assert(line_wf(rules[from], entries, sets.len() as int));
        match rules[from] {
            RuleOrAction::Rule(r) => {
                if !r.condition.holds(sets, info) {
                    eval_target_valid(rules, from + 1, sets, info, answer, entries);
                }
            },
            RuleOrAction::Action(Action::LocalResolve) => {
                eval_target_valid(
                    rules,
                    from + 1,
                    sets,
                    with_resolved(info, local_resolve(info, answer)),
                    answer,
                    entries,
                );
            },
            RuleOrAction::Action(Action::SubDispatch(sub)) => {
                if sub.condition.holds(sets, info) {
                    eval_target_valid(sub.snippet.rules@, 0, sets, info, answer, entries);
                } else {
                    eval_target_valid(rules, from + 1, sets, info, answer, entries);
                }
            },
        }
    }
}

/// Where a flow that was matched to `target` is sent: to the proxy that the
/// target resolves to, or to `REJECT` where the flow is UDP and that proxy
/// cannot carry UDP.
pub open spec fn filtered(entries: Seq<Entry>, target: GeneralProxy, kind: NetworkType) -> (int, Option<String>) {
    let r = resolve(entries, target);
    if kind == NetworkType::Udp && !supports_udp(entries, r.proxy) {
        (REJECT as int, None)
    } else {
        (r.proxy, r.iface)
    }
}

impl Decision {
    /// Whether the decision is the pair `d`.
    pub open spec fn is(&self, d: (int, Option<String>)) -> bool {
        self.proxy == d.0 && self.iface == d.1
    }
}

/// Resolves the destination's host name with the resolver's answer.
fn resolve_locally(info: &mut ConnInfo, answer: Option<IpAddress>)
    ensures
        *final(info) == with_resolved(*old(info), local_resolve(*old(info), answer)),
{
    if info.resolved_dst.is_none() {
        match answer {
            Some(ip) => {
                match &info.dst {
                    NetworkAddr::DomainName { port, .. } => {
                        let p = *port;
                        info.resolved_dst = Some(SockAddr { ip, port: p });
                    },
                    NetworkAddr::Raw(_) => {},
                }
            },
            None => {},
        }
    }
}

/// Matches the flow against the rules, in order.
#[verifier::loop_isolation(false)]
pub fn match_rules(
    rules: &Vec<RuleOrAction>,
    sets: &Vec<RuleSet>,
    info: &mut ConnInfo,
    answer: Option<IpAddress>,
) -> (r: Option<GeneralProxy>)
    ensures
        r == eval(rules@, 0, sets@, *old(info), answer).target,
        *final(info) == with_resolved(*old(info), eval(rules@, 0, sets@, *old(info), answer).resolved),
    decreases rules,
{
    let ghost start = *info;
    let mut i: usize = 0;
    while i < rules.len()
        invariant
            i <= rules.len(),
            *info == with_resolved(start, info.resolved_dst),
            eval(rules@, 0, sets@, start, answer) == eval(rules@, i as int, sets@, *info, answer),
        decreases rules.len() - i,
    {
        match &rules[i] {
            RuleOrAction::Rule(r) => {
                if r.condition.matches(sets, info) {
                    return Some(r.target);
                }
            },
            RuleOrAction::Action(Action::LocalResolve) => {
                resolve_locally(info, answer);
            },
            RuleOrAction::Action(Action::SubDispatch(sub)) => {
                if sub.condition.matches(sets, info) {
                    let inner = match_rules(&sub.snippet.rules, sets, info, answer);
                    return match inner {
                        Some(t) => Some(t),
                        None => Some(sub.snippet.fallback),
                    };
                }
            },
        }
        i += 1;
    }
    None
}

impl DispatchingSnippet {
    /// Whether the snippet's targets and rule sets exist.
    pub open spec fn wf(&self, entries: Seq<Entry>, n: int) -> bool {
        rules_wf(self.rules@, entries, n) && self.fallback.valid(entries, entries.len() as int)
    }

    /// The target that the snippet gives the flow: that of the first rule
    /// that matches, or else the fallback.
    pub open spec fn target(&self, sets: Seq<RuleSet>, info: ConnInfo, answer: Option<IpAddress>) -> GeneralProxy {
        match eval(self.rules@, 0, sets, info, answer).target {
            Some(t) => t,
            None => self.fallback,
        }
    }

    /// Decides where the flow is sent. `answer` is what the resolver gives
    /// for the destination's host name; a `LocalResolve` line writes it into
    /// the flow.
    pub fn matches(
        &self,
        table: &ProxyTable,
        sets: &Vec<RuleSet>,
        info: &mut ConnInfo,
        answer: Option<IpAddress>,
    ) -> (d: Decision)
        requires
            table.wf(),
            self.wf(table.entries@, sets.len() as int),
        ensures
            d.is(
                filtered(
                    table.entries@,
                    self.target(sets@, *old(info), answer),
                    old(info).connection_type,
                ),
            ),
            *final(info) == with_resolved(
                *old(info),
                eval(self.rules@, 0, sets@, *old(info), answer).resolved,
            ),
            d.proxy < table.entries.len(),
            table.entries[d.proxy as int] is Proxy,
    {
        proof {
            eval_target_valid(self.rules@, 0, sets@, *info, answer, table.entries@);
        }
        let t = match match_rules(&self.rules, sets, info, answer) {
            Some(t) => t,
            None => self.fallback,
        };
        Self::proxy_filtering(table, t, info)
    }

    /// Resolves a target to a proxy. A UDP flow whose proxy cannot carry UDP
    /// is sent to `REJECT`.
    pub fn proxy_filtering(table: &ProxyTable, proxy: GeneralProxy, info: &ConnInfo) -> (d: Decision)
        requires
            table.wf(),
            proxy.valid(table.entries@, table.entries.len() as int),
        ensures
            d.is(filtered(table.entries@, proxy, info.connection_type)),
            d.proxy < table.entries.len(),
            table.entries[d.proxy as int] is Proxy,
    {
        let r = table.get_impl(proxy);
        if info.connection_type == NetworkType::Udp && !table.support_udp(r.0) {
            Decision { proxy: REJECT, iface: None }
        } else {
            Decision { proxy: r.0, iface: r.1 }
        }
    }
}

impl TemporaryList {
    /// The list of the rules.
    pub fn new(rules: Vec<RuleOrAction>) -> (t: TemporaryList)
        ensures
            t.rules == rules,
    {
        TemporaryList { rules }
    }

    /// The list without a rule, which matches no flow.
    pub fn empty() -> (t: TemporaryList)
        ensures
            t.rules@ == Seq::<RuleOrAction>::empty(),
    {
        TemporaryList { rules: Vec::new() }
    }

    /// Whether the list's targets and rule sets exist.
    pub open spec fn wf(&self, entries: Seq<Entry>, n: int) -> bool {
        rules_wf(self.rules@, entries, n)
    }

    /// Decides where the flow is sent, if a rule of the list matches it.
    pub fn matches(
        &self,
        table: &ProxyTable,
        sets: &Vec<RuleSet>,
        info: &mut ConnInfo,
        answer: Option<IpAddress>,
    ) -> (d: Option<Decision>)
        requires
            table.wf(),
            self.wf(table.entries@, sets.len() as int),
        ensures
            match eval(self.rules@, 0, sets@, *old(info), answer).target {
                Some(t) => d matches Some(dec) && dec.is(
                    filtered(table.entries@, t, old(info).connection_type),
                ) && dec.proxy < table.entries.len() && table.entries[dec.proxy as int] is Proxy,
                None => d is None,
            },
            *final(info) == with_resolved(
                *old(info),
                eval(self.rules@, 0, sets@, *old(info), answer).resolved,
            ),
    {
        proof {
            eval_target_valid(self.rules@, 0, sets@, *info, answer, table.entries@);
        }
        match match_rules(&self.rules, sets, info, answer) {
            Some(t) => Some(DispatchingSnippet::proxy_filtering(table, t, info)),
            None => None,
        }
    }
}

} // verus!
