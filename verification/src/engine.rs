//! The dispatching of a configuration: its table, its rules and the
//! temporary rules that are consulted before them.

use crate::addr::{IpAddress, SockAddr};
use crate::builder::{BuildError, DispatchingBuilder};
use crate::compile::{
    condition_denoted, fallback_compiled, is_condition_line, line_fields, parse_incomplete,
    rules_compiled, snippet_error, temporary_error,
};
use crate::config::{LoadedConfig, RuleConfigLine};
use crate::dispatching::{
    eval, eval_target_valid, filtered, line_wf, rules_wf, with_resolved, Action, Decision,
    DispatchingSnippet, Rule, RuleOrAction, TemporaryList,
};
use crate::proxy::{
    resolve_stays_below, table_wf, Entry, GeneralProxy, ProxyGroup, ProxyImpl, DIRECT,
    REJECT,
};
use crate::rule::{ConnInfo, RuleSet};
use crate::text::str_eq;
use vstd::prelude::*;

verus! {

/// The proxy table with the compiled rules of a configuration.
#[derive(Debug)]
pub struct Dispatching {
    pub temporary_list: TemporaryList,
    pub templist_builder: DispatchingBuilder,
    pub snippet: DispatchingSnippet,
}

/// Why a selection was not made.
#[derive(Clone, Copy, Debug, PartialEq, Eq, Structural)]
pub enum SelectError {
    /// No group has the name.
    GroupNotFound,
    /// The group has no member of the name.
    ProxyNotFound,
}

/// Whether the member at `j` is the first that refers to an entry of the
/// name `name`.
pub open spec fn is_member(entries: Seq<Entry>, g: ProxyGroup, name: Seq<char>, j: int) -> bool {
    &&& 0 <= j < g.members@.len()
    &&& entries[g.members@[j].index()].name() == name
    &&& forall|i: int| 0 <= i < j ==> entries[(#[trigger] g.members@[i]).index()].name() != name
}

/// Whether the entry at `k` is the group of the name `name`.
pub open spec fn is_group(entries: Seq<Entry>, name: Seq<char>, k: int) -> bool {
    0 <= k < entries.len() && entries[k] is Group && entries[k].name() == name
}

/// The group with the member at `j` selected.
pub open spec fn selecting(e: Entry, j: int, after: Entry) -> bool {
    match (e, after) {
        (Entry::Group(g), Entry::Group(h)) => h.name == g.name && h.members == g.members && h.interface
            == g.interface && h.selected == j,
        _ => false,
    }
}

/// The groups that the first `n` names of `order` name in the table, in that
/// order. A name of a chain, or of no entry, gives none.
pub open spec fn listed_groups(entries: Seq<Entry>, order: Seq<String>, n: int) -> Seq<ProxyGroup>
    decreases n,
{
    if n <= 0 {
        Seq::empty()
    } else {
        let rest = listed_groups(entries, order, n - 1);
        let name = order[n - 1]@;
        if exists|k: int| #[trigger] is_group(entries, name, k) {
            rest.push(entries[choose|k: int| #[trigger] is_group(entries, name, k)]->Group_0)
        } else {
            rest
        }
    }
}

/// A table stays one when another member of a group is selected.
pub proof fn table_wf_after_select(entries: Seq<Entry>, k: int, j: int, after: Entry)
    requires
        table_wf(entries),
        0 <= k < entries.len(),
        selecting(entries[k], j, after),
        0 <= j < (entries[k]->Group_0).members@.len(),
    ensures
        table_wf(entries.update(k, after)),
{
    let now = entries.update(k, after);
    assert(k >= 2);
    assert forall|a: int, b: int| 0 <= a < b < now.len() implies (#[trigger] now[a]).name() != (
    #[trigger] now[b]).name() by {
        assert(entries[a].name() != entries[b].name());
    }
    assert forall|i: int| 0 <= i < now.len() implies (#[trigger] now[i]).refers_below(now, i) by {
        assert(entries[i].refers_below(entries, i));
        match now[i] {
            Entry::Proxy(q) => match q.imp {
                ProxyImpl::Chain(hops) => {
                    assert forall|x: int| 0 <= x < hops.len() implies (#[trigger] hops[x]).valid(now, i) by {
                        assert(hops[x].valid(entries, i));
                    }
                },
                _ => {},
            },
            Entry::Group(g) => {
                assert forall|x: int| 0 <= x < g.members.len() implies (#[trigger] g.members[x]).valid(
                    now,
                    i,
                ) by {
                    assert((entries[i]->Group_0).members[x].valid(entries, i));
                }
            },
        }
    }
}

/// Whether two tables have entries of the same kinds at the same places.
pub open spec fn same_kinds(a: Seq<Entry>, b: Seq<Entry>) -> bool {
    a.len() == b.len() && forall|i: int| 0 <= i < a.len() ==> (#[trigger] a[i] is Proxy) == (b[i] is Proxy)
}

/// Rules whose targets exist in a table have targets in every table with
/// entries of the same kinds.
pub proof fn rules_wf_same_kinds(rules: Seq<RuleOrAction>, a: Seq<Entry>, b: Seq<Entry>, n: int)
    requires
        same_kinds(a, b),
        rules_wf(rules, a, n),
    ensures
        rules_wf(rules, b, n),
    decreases rules, 1int,
{
    assert forall|i: int| 0 <= i < rules.len() implies line_wf(#[trigger] rules[i], b, n) by {
        assert(line_wf(rules[i], a, n));
        line_wf_same_kinds(rules[i], a, b, n);
    }
}

/// A line whose targets exist in a table has targets in every table with
/// entries of the same kinds.
pub proof fn line_wf_same_kinds(line: RuleOrAction, a: Seq<Entry>, b: Seq<Entry>, n: int)
    requires
        same_kinds(a, b),
        line_wf(line, a, n),
    ensures
        line_wf(line, b, n),
    decreases line, 0int,
{
    match line {
        RuleOrAction::Rule(r) => {
            assert(a[r.target.index()] is Proxy == b[r.target.index()] is Proxy);
        },
        RuleOrAction::Action(Action::LocalResolve) => {},
        RuleOrAction::Action(Action::SubDispatch(sub)) => {
            assert(a[sub.snippet.fallback.index()] is Proxy == b[sub.snippet.fallback.index()] is Proxy);
            rules_wf_same_kinds(sub.snippet.rules@, a, b, n);
        },
    }
}

impl Dispatching {
    /// The entries of the table.
    pub open spec fn entries(&self) -> Seq<Entry> {
        self.templist_builder.table.entries@
    }

    /// The rule sets.
    pub open spec fn sets(&self) -> Seq<RuleSet> {
        self.templist_builder.rulesets@
    }

    /// Whether the table is well formed and every rule's target and rule
    /// set exists.
    pub open spec fn wf(&self) -> bool {
        &&& self.templist_builder.wf()
        &&& self.snippet.wf(self.entries(), self.sets().len() as int)
        &&& self.temporary_list.wf(self.entries(), self.sets().len() as int)
    }

    /// The resolved destination that matching leaves in the flow.
    pub open spec fn resolved_after(&self, info: ConnInfo, answer: Option<IpAddress>) -> Option<SockAddr> {
        let over = eval(self.temporary_list.rules@, 0, self.sets(), info, answer);
        match over.target {
            Some(_) => over.resolved,
            None => eval(
                self.snippet.rules@,
                0,
                self.sets(),
                with_resolved(info, over.resolved),
                answer,
            ).resolved,
        }
    }

    /// Where the flow is sent: where a temporary rule matches it, by that
    /// rule; else by the first rule of the main list that matches it, or by
    /// the fallback.
    pub open spec fn decision(&self, info: ConnInfo, answer: Option<IpAddress>) -> (int, Option<String>) {
        let over = eval(self.temporary_list.rules@, 0, self.sets(), info, answer);
        match over.target {
            Some(t) => filtered(self.entries(), t, info.connection_type),
            None => filtered(
                self.entries(),
                self.snippet.target(self.sets(), with_resolved(info, over.resolved), answer),
                info.connection_type,
            ),
        }
    }

    /// Decides where the flow is sent. `answer` is what the resolver gives
    /// for the destination's host name; a `LocalResolve` line writes it into
    /// the flow.
    pub fn matches(&self, info: &mut ConnInfo, answer: Option<IpAddress>) -> (d: Decision)
        requires
            self.wf(),
        ensures
            d.is(self.decision(*old(info), answer)),
            *final(info) == with_resolved(*old(info), self.resolved_after(*old(info), answer)),
            d.proxy < self.entries().len(),
            self.entries()[d.proxy as int] is Proxy,
    {
        let table = &self.templist_builder.table;
        let sets = &self.templist_builder.rulesets;
        match self.temporary_list.matches(table, sets, info, answer) {
            Some(d) => d,
            None => self.snippet.matches(table, sets, info, answer),
        }
    }

    /// The proxy that a decision names.
    pub fn proxy_impl(&self, d: &Decision) -> (r: &ProxyImpl)
        requires
            d.proxy < self.entries().len(),
            self.entries()[d.proxy as int] is Proxy,
        ensures
            *r == (self.entries()[d.proxy as int]->Proxy_0).imp,
    {
        match &self.templist_builder.table.entries[d.proxy] {
            Entry::Proxy(p) => &p.imp,
            Entry::Group(_) => &ProxyImpl::Reject,
        }
    }

    /// Replaces the temporary rules. Where the new list is refused, the old
    /// one stays.
    pub fn update_temporary_list(&mut self, list: &[RuleConfigLine]) -> (r: Result<(), BuildError>)
        requires
            old(self).wf(),
        ensures
            final(self).wf(),
            final(self).templist_builder == old(self).templist_builder,
            final(self).snippet == old(self).snippet,
            match r {
                Ok(()) => temporary_error(list@, old(self).entries(), old(self).sets()) is None
                    && rules_compiled(
                    list@,
                    old(self).entries(),
                    old(self).sets(),
                    final(self).temporary_list.rules@,
                ),
                Err(e) => temporary_error(list@, old(self).entries(), old(self).sets()) == Some(e)
                    && final(self).temporary_list == old(self).temporary_list,
            },
    {
        match self.templist_builder.build_temporary_list(list) {
            Ok(t) => {
                self.temporary_list = t;
                Ok(())
            },
            Err(e) => Err(e),
        }
    }

    /// Selects, in the group named `group`, the first member named `proxy`.
    pub fn set_group_selection(&mut self, group: &str, proxy: &str) -> (r: Result<(), SelectError>)
        requires
            old(self).wf(),
        ensures
            final(self).wf(),
            final(self).temporary_list == old(self).temporary_list,
            final(self).snippet == old(self).snippet,
            final(self).templist_builder.rulesets == old(self).templist_builder.rulesets,
            final(self).templist_builder.group_order == old(self).templist_builder.group_order,
            match r {
                Ok(()) => exists|k: int, j: int|
                    {
                        &&& #[trigger] is_group(old(self).entries(), group@, k)
                        &&& #[trigger] is_member(
                            old(self).entries(),
                            old(self).entries()[k]->Group_0,
                            proxy@,
                            j,
                        )
                        &&& final(self).entries().len() == old(self).entries().len()
                        &&& selecting(old(self).entries()[k], j, final(self).entries()[k])
                        &&& forall|i: int|
                            0 <= i < old(self).entries().len() && i != k ==> final(self).entries()[i]
                                == old(self).entries()[i]
                    },
                Err(SelectError::GroupNotFound) => *final(self) == *old(self) && forall|k: int|
                    !is_group(old(self).entries(), group@, k),
                Err(SelectError::ProxyNotFound) => *final(self) == *old(self) && exists|k: int|
                    #[trigger] is_group(old(self).entries(), group@, k) && forall|j: int|
                        !is_member(old(self).entries(), old(self).entries()[k]->Group_0, proxy@, j),
            },
    {
        let ghost before = self.entries();
        let k = match self.templist_builder.table.find(group) {
            Some(k) => k,
            None => {
                return Err(SelectError::GroupNotFound);
            },
        };
        let found = match &self.templist_builder.table.entries[k] {
            Entry::Group(g) => {
                assert(before[k as int].refers_below(before, k as int));
                let mut j: usize = 0;
                let mut found: Option<usize> = None;
                while j < g.members.len() && found.is_none()
                    invariant
                        j <= g.members@.len(),
                        before == self.entries(),
                        self.wf(),
                        k < before.len(),
                        before[k as int] == Entry::Group(*g),
                        forall|i: int| 0 <= i < g.members@.len() ==> (#[trigger] g.members@[i]).valid(before, k as int),
                        match found {
                            Some(x) => is_member(before, *g, proxy@, x as int),
                            None => forall|i: int|
                                0 <= i < j ==> before[(#[trigger] g.members@[i]).index()].name() != proxy@,
                        },
                    decreases g.members@.len() - j + if found is None { 1int } else { 0int },
                {
                    let m = g.members[j];
                    assert(m.valid(before, k as int));
                    let idx = match m {
                        GeneralProxy::Single(x) => x,
                        GeneralProxy::Group(x) => x,
                    };
                    let same = match &self.templist_builder.table.entries[idx] {
                        Entry::Proxy(p) => str_eq(p.name.as_str(), proxy),
                        Entry::Group(h) => str_eq(h.name.as_str(), proxy),
                    };
                    if same {
                        found = Some(j);
                    } else {
                        j += 1;
                    }
                }
                found
            },
            Entry::Proxy(_) => {
                proof {
                    assert forall|c: int| !is_group(before, group@, c) by {
                        if is_group(before, group@, c) {
                            if c < k {
                                assert(before[c].name() != before[k as int].name());
                            } else if k < c {
                                assert(before[k as int].name() != before[c].name());
                            }
                        }
                    }
                }
                return Err(SelectError::GroupNotFound);
            },
        };
        assert(is_group(before, group@, k as int));
        match found {
            Some(j) => {
                let old_entry = self.templist_builder.table.entries.remove(k);
                let new_entry = match old_entry {
                    Entry::Group(g) => Entry::Group(
                        ProxyGroup { name: g.name, members: g.members, selected: j, interface: g.interface },
                    ),
                    Entry::Proxy(p) => Entry::Proxy(p),
                };
                self.templist_builder.table.entries.insert(k, new_entry);
                proof {
                    let now = self.entries();
                    assert(now =~= before.update(k as int, new_entry));
                    table_wf_after_select(before, k as int, j as int, new_entry);
                    assert(same_kinds(before, now));
                    rules_wf_same_kinds(self.snippet.rules@, before, now, self.sets().len() as int);
                    rules_wf_same_kinds(self.temporary_list.rules@, before, now, self.sets().len() as int);
                    assert(before[self.snippet.fallback.index()] is Proxy == now[self.snippet.fallback.index()] is Proxy);
                }
                Ok(())
            },
            None => {
                proof {
                    let g = before[k as int]->Group_0;
                    assert forall|j: int| !is_member(before, g, proxy@, j) by {}
                }
                Err(SelectError::ProxyNotFound)
            },
        }
    }

    /// The groups of the configuration, in its order, without the chains.
    pub fn get_group_list(&self) -> (r: Vec<&ProxyGroup>)
        requires
            self.wf(),
        ensures
            r@.len() == listed_groups(
                self.entries(),
                self.templist_builder.group_order@,
                self.templist_builder.group_order@.len() as int,
            ).len(),
            forall|i: int|
                0 <= i < r@.len() ==> *(#[trigger] r@[i]) == listed_groups(
                    self.entries(),
                    self.templist_builder.group_order@,
                    self.templist_builder.group_order@.len() as int,
                )[i],
    {
        let order = &self.templist_builder.group_order;
        let table = &self.templist_builder.table;
        let mut out: Vec<&ProxyGroup> = Vec::new();
        let mut i: usize = 0;
        while i < order.len()
            invariant
                i <= order.len(),
                order == &self.templist_builder.group_order,
                table == &self.templist_builder.table,
                table.wf(),
                out@.len() == listed_groups(table.entries@, order@, i as int).len(),
                forall|j: int|
                    0 <= j < out@.len() ==> *(#[trigger] out@[j]) == listed_groups(
                        table.entries@,
                        order@,
                        i as int,
                    )[j],
            decreases order.len() - i,
        {
            let ghost name = order@[i as int]@;
            match table.find(order[i].as_str()) {
                Some(k) => match &table.entries[k] {
                    Entry::Group(g) => {
                        proof {
                            assert(is_group(table.entries@, name, k as int));
                            let c = choose|c: int| #[trigger] is_group(table.entries@, name, c);
                            assert(c == k) by {
                                if c < k {
                                    assert(table.entries@[c].name() != table.entries@[k as int].name());
                                } else if k < c {
                                    assert(table.entries@[k as int].name() != table.entries@[c].name());
                                }
                            }
                        }
                        out.push(g);
                    },
                    Entry::Proxy(_) => {
                        proof {
                            if exists|c: int| #[trigger] is_group(table.entries@, name, c) {
                                let c = choose|c: int| #[trigger] is_group(table.entries@, name, c);
                                if c < k {
                                    assert(table.entries@[c].name() != table.entries@[k as int].name());
                                } else if k < c {
                                    assert(table.entries@[k as int].name() != table.entries@[c].name());
                                }
                            }
                        }
                    },
                },
                None => {},
            }
            i += 1;
        }
        out
    }
}

/// Why the rules of a configuration are refused, if they are: the main
/// list for what a list with a fallback is refused for; else the stored
/// temporary list, if there is one, for what a temporary list is refused
/// for.
pub open spec fn rules_error(entries: Seq<Entry>, sets: Seq<RuleSet>, cfg: LoadedConfig) -> Option<BuildError> {
    if snippet_error(cfg.config.rule_local@, entries, sets) is Some {
        snippet_error(cfg.config.rule_local@, entries, sets)
    } else {
        match cfg.state.temporary_list {
            Some(list) => temporary_error(list@, entries, sets),
            None => None,
        }
    }
}

/// Whether `out` is the rule that sends the flows that meet the condition
/// of the line to `DIRECT`.
pub open spec fn filter_rule(text: Seq<char>, sets: Seq<RuleSet>, out: RuleOrAction) -> bool {
    match out {
        RuleOrAction::Rule(r) => {
            &&& r.target == GeneralProxy::Single(DIRECT)
            &&& is_condition_line(text, sets)
            &&& condition_denoted(line_fields(text)[0], line_fields(text)[1], sets, r.condition)
        },
        RuleOrAction::Action(_) => false,
    }
}

impl DispatchingBuilder {
    /// Compiles the rules of the configuration against the builder's table.
    pub fn build(self, loaded_config: &LoadedConfig) -> (r: Result<Dispatching, BuildError>)
        requires
            self.wf(),
        ensures
            match r {
                Ok(d) => {
                    let entries = self.table.entries@;
                    let sets = self.rulesets@;
                    &&& d.wf()
                    &&& d.templist_builder == self
                    &&& rules_error(entries, sets, *loaded_config) is None
                    &&& rules_compiled(loaded_config.config.rule_local@, entries, sets, d.snippet.rules@)
                    &&& fallback_compiled(
                        loaded_config.config.rule_local@,
                        entries,
                        Some(d.snippet.fallback),
                    )
                    &&& match loaded_config.state.temporary_list {
                        Some(list) => rules_compiled(list@, entries, sets, d.temporary_list.rules@),
                        None => d.temporary_list.rules@.len() == 0,
                    }
                },
                Err(e) => rules_error(self.table.entries@, self.rulesets@, *loaded_config) == Some(e),
            },
    {
        let (rules, fallback) = match self.build_rules(loaded_config.config.rule_local.as_slice()) {
            Ok(pair) => pair,
            Err(e) => {
                return Err(e);
            },
        };
        let temporary_list = match &loaded_config.state.temporary_list {
            Some(list) => match self.build_temporary_list(list.as_slice()) {
                Ok(t) => t,
                Err(e) => {
                    return Err(e);
                },
            },
            None => TemporaryList::empty(),
        };
        Ok(
            Dispatching {
                temporary_list,
                templist_builder: self,
                snippet: DispatchingSnippet { rules, fallback },
            },
        )
    }

    /// Builds a dispatching that filters: a flow that meets one of the
    /// conditions is sent to `DIRECT`, every other flow to `REJECT`.
    pub fn build_filter(self, rules: &[String], ruleset: Vec<RuleSet>) -> (r: Result<Dispatching, BuildError>)
        requires
            self.wf(),
        ensures
            match r {
                Ok(d) => {
                    &&& d.wf()
                    &&& d.templist_builder.table == self.table
                    &&& d.templist_builder.group_order == self.group_order
                    &&& d.templist_builder.rulesets == ruleset
                    &&& d.temporary_list.rules@.len() == 0
                    &&& d.snippet.fallback == GeneralProxy::Single(REJECT)
                    &&& d.snippet.rules@.len() == rules@.len()
                    &&& forall|i: int|
                        0 <= i < rules@.len() ==> filter_rule(
                            (#[trigger] rules@[i])@,
                            ruleset@,
                            d.snippet.rules@[i],
                        )
                },
                Err(e) => e == BuildError::BadRule && exists|i: int|
                    0 <= i < rules@.len() && !is_condition_line((#[trigger] rules@[i])@, ruleset@),
            },
    {
        let ghost entries = self.table.entries@;
        let mut builder = self;
        builder.rulesets = ruleset;
        let mut out: Vec<RuleOrAction> = Vec::new();
        let mut i: usize = 0;
        while i < rules.len()
            invariant
                i <= rules.len(),
                out@.len() == i,
                builder.table == self.table,
                builder.group_order == self.group_order,
                builder.rulesets == ruleset,
                builder.wf(),
                entries == self.table.entries@,
                forall|j: int| 0 <= j < i ==> filter_rule((#[trigger] rules@[j])@, ruleset@, out@[j]),
                rules_wf(out@, entries, ruleset@.len() as int),
            decreases rules.len() - i,
        {
            let ghost before = out@;
            match parse_incomplete(rules[i].as_str(), &builder.rulesets) {
                Some(condition) => {
                    out.push(RuleOrAction::Rule(Rule { condition, target: GeneralProxy::Single(DIRECT) }));
                },
                None => {
                    return Err(BuildError::BadRule);
                },
            }
            proof {
                assert forall|j: int| 0 <= j < i + 1 implies filter_rule(
                    (#[trigger] rules@[j])@,
                    ruleset@,
                    out@[j],
                ) by {
                    if j < i {
                        assert(out@[j] == before[j]);
                    }
                }
                assert forall|j: int| 0 <= j < out@.len() implies line_wf(
                    #[trigger] out@[j],
                    entries,
                    ruleset@.len() as int,
                ) by {
                    if j < i {
                        assert(out@[j] == before[j]);
                    }
                }
            }
            i += 1;
        }
        Ok(
            Dispatching {
                temporary_list: TemporaryList::empty(),
                templist_builder: builder,
                snippet: DispatchingSnippet { rules: out, fallback: GeneralProxy::Single(REJECT) },
            },
        )
    }
}

/// The name of the process of a flow.
pub open spec fn process_name(info: ConnInfo) -> Option<Seq<char>> {
    match info.process_info {
        Some(p) => Some(p.name@),
        None => None,
    }
}

/// Whether two flows hold the same: the same addresses, inbound, kind and
/// name of the process.
pub open spec fn same_flow(a: ConnInfo, b: ConnInfo) -> bool {
    &&& a.src == b.src
    &&& a.dst@ == b.dst@
    &&& a.inbound@ == b.inbound@
    &&& a.resolved_dst == b.resolved_dst
    &&& a.connection_type == b.connection_type
    &&& process_name(a) == process_name(b)
}

/// Matching gives flows that hold the same the same target and the same
/// resolved destination.
pub proof fn eval_same_flow(
    rules: Seq<RuleOrAction>,
    from: int,
    sets: Seq<RuleSet>,
    a: ConnInfo,
    b: ConnInfo,
    answer: Option<IpAddress>,
)
    requires
        same_flow(a, b),
        0 <= from,
    ensures
        eval(rules, from, sets, a, answer) == eval(rules, from, sets, b, answer),
    decreases rules, rules.len() - from,
{
    if from < rules.len() {
        match rules[from] {
            RuleOrAction::Rule(r) => {
                holds_same_flow(r.condition, sets, a, b);
                eval_same_flow(rules, from + 1, sets, a, b, answer);
            },
            RuleOrAction::Action(Action::LocalResolve) => {
                eval_same_flow(
                    rules,
                    from + 1,
                    sets,
                    with_resolved(a, crate::dispatching::local_resolve(a, answer)),
                    with_resolved(b, crate::dispatching::local_resolve(b, answer)),
                    answer,
                );
            },
            RuleOrAction::Action(Action::SubDispatch(sub)) => {
                holds_same_flow(sub.condition, sets, a, b);
                eval_same_flow(sub.snippet.rules@, 0, sets, a, b, answer);
                eval_same_flow(rules, from + 1, sets, a, b, answer);
            },
        }
    }
}

/// A condition holds of a flow if it holds of a flow that holds the same.
pub proof fn holds_same_flow(c: crate::rule::Condition, sets: Seq<RuleSet>, a: ConnInfo, b: ConnInfo)
    requires
        same_flow(a, b),
    ensures
        c.holds(sets, a) == c.holds(sets, b),
{
    match c {
        crate::rule::Condition::RuleSet(k) => {
            if k < sets.len() {
                let list = sets[k as int].conditions;
                assert forall|j: int| 0 <= j < list.len() implies (#[trigger] list[j]).holds_plainly(a)
                    == list[j].holds_plainly(b) by {}
            }
        },
        _ => {},
    }
}

/// Dispatching is a function of what the flow holds: flows that hold the
/// same are sent to the same proxy, by one dispatching.
pub proof fn decision_deterministic(d: Dispatching, a: ConnInfo, b: ConnInfo, answer: Option<IpAddress>)
    requires
        same_flow(a, b),
    ensures
        d.decision(a, answer) == d.decision(b, answer),
        d.resolved_after(a, answer) == d.resolved_after(b, answer),
{
    eval_same_flow(d.temporary_list.rules@, 0, d.sets(), a, b, answer);
    let over = eval(d.temporary_list.rules@, 0, d.sets(), a, answer);
    eval_same_flow(
        d.snippet.rules@,
        0,
        d.sets(),
        with_resolved(a, over.resolved),
        with_resolved(b, over.resolved),
        answer,
    );
}

/// Every flow is decided: a dispatching sends every flow to a proxy of its
/// table.
pub proof fn decision_total(d: Dispatching, info: ConnInfo, answer: Option<IpAddress>)
    requires
        d.wf(),
    ensures
        0 <= d.decision(info, answer).0 < d.entries().len(),
        d.entries()[d.decision(info, answer).0] is Proxy,
{
    let over = eval(d.temporary_list.rules@, 0, d.sets(), info, answer);
    eval_target_valid(d.temporary_list.rules@, 0, d.sets(), info, answer, d.entries());
    let next = with_resolved(info, over.resolved);
    eval_target_valid(d.snippet.rules@, 0, d.sets(), next, answer, d.entries());
    let target = match over.target {
        Some(t) => t,
        None => d.snippet.target(d.sets(), next, answer),
    };
    resolve_stays_below(d.entries(), target, d.entries().len() as int);
}

/// The temporary rules come first: where one of them matches a flow, the
/// main rules have no part in the decision.
pub proof fn overlay_precedes(a: Dispatching, b: Dispatching, info: ConnInfo, answer: Option<IpAddress>)
    requires
        a.temporary_list == b.temporary_list,
        a.templist_builder == b.templist_builder,
        eval(a.temporary_list.rules@, 0, a.sets(), info, answer).target is Some,
    ensures
        a.decision(info, answer) == b.decision(info, answer),
        a.decision(info, answer) == filtered(
            a.entries(),
            eval(a.temporary_list.rules@, 0, a.sets(), info, answer).target->0,
            info.connection_type,
        ),
{
}

} // verus!
