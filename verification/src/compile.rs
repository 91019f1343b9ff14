//! Reading rule lines and compiling rule lists.
//!
//! A rule line is `KIND, VALUE, TARGET`; the last line of a rule list may be
//! the fallback `FALLBACK, TARGET`; the condition of a sub-dispatch, and a
//! line of a rule set, is `KIND, VALUE`. Blanks around a field are dropped.

use crate::addr::{cidr_of, parse_cidr};
use crate::builder::{BuildError, DispatchingBuilder};
use crate::config::{RuleAction, RuleConfigLine, RuleSchema};
use crate::dispatching::{
    line_wf, rules_wf, Action, DispatchingSnippet, Rule, RuleOrAction, SubDispatch, TemporaryList,
};
use crate::proxy::{Entry, GeneralProxy, ProxyTable};
use crate::rule::{inbound_denoted, is_inbound_text, Condition, InboundInfo, RuleSet};
use crate::text::{bytes_eq, copy_range, fields, number, parse_number, pieces, split_fields, utf8};
use crate::trusted::string_from_utf8;
use vstd::prelude::*;
use vstd::utf8::valid_utf8;

verus! {

/// The kinds of condition that a rule line may name.
#[derive(Clone, Copy, Debug, PartialEq, Eq, Structural)]
pub enum Kind {
    Domain,
    DomainSuffix,
    DomainKeyword,
    IpCidr,
    DstPort,
    ProcessName,
    Inbound,
    RuleSet,
}

/// The kind that a word names.
pub open spec fn kind_of(word: Seq<u8>) -> Option<Kind> {
    if word == utf8("DOMAIN"@) {
        Some(Kind::Domain)
    } else if word == utf8("DOMAIN-SUFFIX"@) {
        Some(Kind::DomainSuffix)
    } else if word == utf8("DOMAIN-KEYWORD"@) {
        Some(Kind::DomainKeyword)
    } else if word == utf8("IP-CIDR"@) {
        Some(Kind::IpCidr)
    } else if word == utf8("DST-PORT"@) {
        Some(Kind::DstPort)
    } else if word == utf8("PROCESS-NAME"@) {
        Some(Kind::ProcessName)
    } else if word == utf8("INBOUND"@) {
        Some(Kind::Inbound)
    } else if word == utf8("RULE-SET"@) {
        Some(Kind::RuleSet)
    } else {
        None
    }
}

/// Reads the kind of a condition.
pub fn parse_kind(word: &[u8]) -> (r: Option<Kind>)
    ensures
        r == kind_of(word@),
{
    if bytes_eq(word, "DOMAIN".as_bytes()) {
        Some(Kind::Domain)
    } else if bytes_eq(word, "DOMAIN-SUFFIX".as_bytes()) {
        Some(Kind::DomainSuffix)
    } else if bytes_eq(word, "DOMAIN-KEYWORD".as_bytes()) {
        Some(Kind::DomainKeyword)
    } else if bytes_eq(word, "IP-CIDR".as_bytes()) {
        Some(Kind::IpCidr)
    } else if bytes_eq(word, "DST-PORT".as_bytes()) {
        Some(Kind::DstPort)
    } else if bytes_eq(word, "PROCESS-NAME".as_bytes()) {
        Some(Kind::ProcessName)
    } else if bytes_eq(word, "INBOUND".as_bytes()) {
        Some(Kind::Inbound)
    } else if bytes_eq(word, "RULE-SET".as_bytes()) {
        Some(Kind::RuleSet)
    } else {
        None
    }
}

/// Whether the rule set at `k` is the first of the name with bytes `name`.
pub open spec fn is_set(sets: Seq<RuleSet>, name: Seq<u8>, k: int) -> bool {
    0 <= k < sets.len() && utf8(sets[k].name@) == name && forall|j: int|
        0 <= j < k ==> utf8(sets[j].name@) != name
}

/// Whether a value is one that a condition of the kind can be made of.
pub open spec fn value_valid(kind: Kind, value: Seq<u8>, sets: Seq<RuleSet>) -> bool {
    match kind {
        Kind::Domain | Kind::DomainSuffix | Kind::DomainKeyword | Kind::ProcessName => true,
        Kind::IpCidr => cidr_of(value) is Some,
        Kind::DstPort => number(value, 65535) is Some,
        Kind::Inbound => valid_utf8(value) && is_inbound_text(value),
        Kind::RuleSet => exists|k: int| is_set(sets, value, k),
    }
}

/// Whether the condition is the one of the kind that the value makes.
pub open spec fn value_denotes(kind: Kind, value: Seq<u8>, sets: Seq<RuleSet>, c: Condition) -> bool {
    match (kind, c) {
        (Kind::Domain, Condition::Domain(d)) => d@ == value,
        (Kind::DomainSuffix, Condition::DomainSuffix(d)) => d@ == value,
        (Kind::DomainKeyword, Condition::DomainKeyword(d)) => d@ == value,
        (Kind::IpCidr, Condition::IpCidr { net, prefix }) => cidr_of(value) == Some((net, prefix)),
        (Kind::DstPort, Condition::DstPort(p)) => number(value, 65535) == Some(p as nat),
        (Kind::ProcessName, Condition::ProcessName(n)) => n@ == value,
        (Kind::Inbound, Condition::Inbound(i)) => inbound_denoted(value, i@),
        (Kind::RuleSet, Condition::RuleSet(k)) => is_set(sets, value, k as int),
        _ => false,
    }
}

/// Whether the two words are a kind and a value that make a condition.
pub open spec fn condition_valid(word: Seq<u8>, value: Seq<u8>, sets: Seq<RuleSet>) -> bool {
    match kind_of(word) {
        Some(kind) => value_valid(kind, value, sets),
        None => false,
    }
}

/// Whether the condition is the one that the kind and the value make.
pub open spec fn condition_denoted(word: Seq<u8>, value: Seq<u8>, sets: Seq<RuleSet>, c: Condition) -> bool {
    match kind_of(word) {
        Some(kind) => value_denotes(kind, value, sets, c),
        None => false,
    }
}

/// The index of the first rule set of the name with bytes `name`.
pub fn find_set(sets: &Vec<RuleSet>, name: &[u8]) -> (r: Option<usize>)
    ensures
        match r {
            Some(k) => is_set(sets@, name@, k as int),
            None => forall|k: int| !is_set(sets@, name@, k),
        },
{
    let mut i: usize = 0;
    while i < sets.len()
        invariant
            i <= sets.len(),
            forall|j: int| 0 <= j < i ==> utf8(sets[j].name@) != name@,
        decreases sets.len() - i,
    {
        if crate::text::str_is(sets[i].name.as_str(), name) {
            return Some(i);
        }
        i += 1;
    }
    None
}

/// Makes the condition of a kind from its value.
pub fn parse_condition(word: &[u8], value: &[u8], sets: &Vec<RuleSet>) -> (r: Option<Condition>)
    ensures
        match r {
            Some(c) => condition_valid(word@, value@, sets@) && condition_denoted(
                word@,
                value@,
                sets@,
                c,
            ) && c.wf(sets@.len() as int),
            None => !condition_valid(word@, value@, sets@),
        },
{
    let kind = match parse_kind(word) {
        Some(k) => k,
        None => {
            return None;
        },
    };
    match kind {
        Kind::Domain => {
            let v = copy_range(value, 0, value.len());
            assert(v@ =~= value@);
            Some(Condition::Domain(v))
        },
        Kind::DomainSuffix => {
            let v = copy_range(value, 0, value.len());
            assert(v@ =~= value@);
            Some(Condition::DomainSuffix(v))
        },
        Kind::DomainKeyword => {
            let v = copy_range(value, 0, value.len());
            assert(v@ =~= value@);
            Some(Condition::DomainKeyword(v))
        },
        Kind::ProcessName => {
            let v = copy_range(value, 0, value.len());
            assert(v@ =~= value@);
            Some(Condition::ProcessName(v))
        },
        Kind::IpCidr => match parse_cidr(value) {
            Some((net, prefix)) => Some(Condition::IpCidr { net, prefix }),
            None => None,
        },
        Kind::DstPort => match parse_number(value, 65535) {
            Some(p) => Some(Condition::DstPort(p as u16)),
            None => None,
        },
        Kind::Inbound => {
            let v = copy_range(value, 0, value.len());
            assert(v@ =~= value@);
            match string_from_utf8(v) {
                Some(text) => match InboundInfo::parse(text.as_str()) {
                    Some(i) => Some(Condition::Inbound(i)),
                    None => None,
                },
                None => None,
            }
        },
        Kind::RuleSet => match find_set(sets, value) {
            Some(k) => Some(Condition::RuleSet(k)),
            None => None,
        },
    }
}

/// Whether some entry has the name with bytes `name`.
pub open spec fn is_target(entries: Seq<Entry>, name: Seq<u8>) -> bool {
    exists|k: int| 0 <= k < entries.len() && utf8((#[trigger] entries[k]).name()) == name
}

/// Whether the reference is to the entry of the name with bytes `name`.
pub open spec fn target_denoted(entries: Seq<Entry>, name: Seq<u8>, g: GeneralProxy) -> bool {
    g.valid(entries, entries.len() as int) && utf8(entries[g.index()].name()) == name
}

/// The fields of a line: what stands between its commas.
pub open spec fn line_fields(text: Seq<char>) -> Seq<Seq<u8>> {
    fields(utf8(text), 0x2c)
}

/// Whether the line is a condition: a kind and a value.
pub open spec fn is_condition_line(text: Seq<char>, sets: Seq<RuleSet>) -> bool {
    let f = line_fields(text);
    f.len() == 2 && condition_valid(f[0], f[1], sets)
}

/// Whether the line is a rule: a kind, a value and a target.
pub open spec fn is_rule_line(text: Seq<char>, entries: Seq<Entry>, sets: Seq<RuleSet>) -> bool {
    let f = line_fields(text);
    f.len() == 3 && condition_valid(f[0], f[1], sets) && is_target(entries, f[2])
}

/// Whether the line is a fallback: the word `FALLBACK` and a target.
pub open spec fn is_fallback_line(text: Seq<char>, entries: Seq<Entry>) -> bool {
    let f = line_fields(text);
    f.len() == 2 && f[0] == utf8("FALLBACK"@) && is_target(entries, f[1])
}

/// Whether the list ends with a fallback.
pub open spec fn has_fallback(lines: Seq<RuleConfigLine>, entries: Seq<Entry>) -> bool {
    lines.len() > 0 && match lines.last() {
        RuleConfigLine::Simple(text) => is_fallback_line(text@, entries),
        RuleConfigLine::Complex(_) => false,
    }
}

/// Why the lines from `from` on are refused, if they are: the first line
/// that is neither a rule nor an action decides, where a fallback may stand
/// for the last line; a sub-dispatch is refused for its condition, else for
/// what its own list is refused for.
pub open spec fn lines_error(
    lines: Seq<RuleConfigLine>,
    from: int,
    entries: Seq<Entry>,
    sets: Seq<RuleSet>,
) -> Option<BuildError>
    decreases lines, lines.len() - from,
{
    if 0 <= from < lines.len() {
        match lines[from] {
            RuleConfigLine::Complex(RuleAction::LocalResolve) => lines_error(
                lines,
                from + 1,
                entries,
                sets,
            ),
            RuleConfigLine::Complex(RuleAction::SubDispatch(sub)) => {
                if !is_condition_line(sub.matches@, sets) {
                    Some(BuildError::BadRule)
                } else if lines_error(sub.subrules@, 0, entries, sets) is Some {
                    lines_error(sub.subrules@, 0, entries, sets)
                } else if !has_fallback(sub.subrules@, entries) {
                    Some(BuildError::MissingFallback)
                } else {
                    lines_error(lines, from + 1, entries, sets)
                }
            },
            RuleConfigLine::Simple(text) => {
                if from == lines.len() - 1 && is_fallback_line(text@, entries) {
                    None
                } else if !is_rule_line(text@, entries, sets) {
                    Some(BuildError::BadRule)
                } else {
                    lines_error(lines, from + 1, entries, sets)
                }
            },
        }
    } else {
        None
    }
}

/// Why a list that must end with a fallback is refused, if it is.
pub open spec fn snippet_error(lines: Seq<RuleConfigLine>, entries: Seq<Entry>, sets: Seq<RuleSet>) -> Option<
    BuildError,
> {
    if lines_error(lines, 0, entries, sets) is Some {
        lines_error(lines, 0, entries, sets)
    } else if !has_fallback(lines, entries) {
        Some(BuildError::MissingFallback)
    } else {
        None
    }
}

/// The number of lines of a list that are no fallback.
pub open spec fn rule_count(lines: Seq<RuleConfigLine>, entries: Seq<Entry>) -> int {
    if has_fallback(lines, entries) {
        lines.len() - 1
    } else {
        lines.len() as int
    }
}

/// Whether `out` is the list compiled: one rule or action for each line that
/// is no fallback, in order.
pub open spec fn rules_compiled(
    lines: Seq<RuleConfigLine>,
    entries: Seq<Entry>,
    sets: Seq<RuleSet>,
    out: Seq<RuleOrAction>,
) -> bool
    decreases lines, 1int,
{
    out.len() == rule_count(lines, entries) && forall|i: int|
        0 <= i < out.len() && i < lines.len() ==> line_compiled(
            #[trigger] lines[i],
            entries,
            sets,
            out[i],
        )
}

/// Whether the rule has the condition and the target that the line names.
pub open spec fn rule_denoted(text: Seq<char>, entries: Seq<Entry>, sets: Seq<RuleSet>, r: Rule) -> bool {
    let f = line_fields(text);
    &&& f.len() == 3
    &&& condition_denoted(f[0], f[1], sets, r.condition)
    &&& target_denoted(entries, f[2], r.target)
}

/// Whether `out` is the line compiled: the rule with the condition and the
/// target that the line names; local resolution; or the sub-dispatch with
/// the condition that it names, and its own list compiled with its
/// fallback.
pub open spec fn line_compiled(
    line: RuleConfigLine,
    entries: Seq<Entry>,
    sets: Seq<RuleSet>,
    out: RuleOrAction,
) -> bool
    decreases line, 0int,
{
    match (line, out) {
        (RuleConfigLine::Complex(RuleAction::LocalResolve), RuleOrAction::Action(Action::LocalResolve)) => true,
        (
            RuleConfigLine::Complex(RuleAction::SubDispatch(sub)),
            RuleOrAction::Action(Action::SubDispatch(s)),
        ) => {
            let f = line_fields(sub.matches@);
            &&& f.len() == 2
            &&& condition_denoted(f[0], f[1], sets, s.condition)
            &&& rules_compiled(sub.subrules@, entries, sets, s.snippet.rules@)
            &&& fallback_compiled(sub.subrules@, entries, Some(s.snippet.fallback))
        },
        (RuleConfigLine::Simple(text), RuleOrAction::Rule(r)) => rule_denoted(text@, entries, sets, r),
        _ => false,
    }
}

/// Whether `fallback` is the target of the fallback that the list ends
/// with, or nothing where it ends with none.
pub open spec fn fallback_compiled(
    lines: Seq<RuleConfigLine>,
    entries: Seq<Entry>,
    fallback: Option<GeneralProxy>,
) -> bool {
    match fallback {
        Some(t) => has_fallback(lines, entries) && match lines.last() {
            RuleConfigLine::Simple(text) => target_denoted(entries, line_fields(text@)[1], t),
            RuleConfigLine::Complex(_) => false,
        },
        None => !has_fallback(lines, entries),
    }
}

/// Looks up a target by the bytes of its name.
pub fn parse_target(table: &ProxyTable, name: &[u8]) -> (r: Option<GeneralProxy>)
    ensures
        match r {
            Some(g) => target_denoted(table.entries@, name@, g),
            None => !is_target(table.entries@, name@),
        },
{
    match table.find_bytes(name) {
        Some(k) => Some(table.reference(k)),
        None => None,
    }
}

/// Reads a condition line.
pub fn parse_incomplete(text: &str, sets: &Vec<RuleSet>) -> (r: Option<Condition>)
    ensures
        match r {
            Some(c) => is_condition_line(text@, sets@) && condition_denoted(
                line_fields(text@)[0],
                line_fields(text@)[1],
                sets@,
                c,
            ) && c.wf(sets@.len() as int),
            None => !is_condition_line(text@, sets@),
        },
{
    let f = split_fields(text.as_bytes(), 0x2c);
    if f.len() != 2 {
        return None;
    }
    assert(pieces(f@)[0] == f@[0]@ && pieces(f@)[1] == f@[1]@);
    parse_condition(f[0].as_slice(), f[1].as_slice(), sets)
}

/// Reads a rule line.
pub fn parse_literal(text: &str, table: &ProxyTable, sets: &Vec<RuleSet>) -> (r: Option<Rule>)
    ensures
        match r {
            Some(rule) => is_rule_line(text@, table.entries@, sets@) && rule_denoted(
                text@,
                table.entries@,
                sets@,
                rule,
            ) && line_wf(RuleOrAction::Rule(rule), table.entries@, sets@.len() as int),
            None => !is_rule_line(text@, table.entries@, sets@),
        },
{
    let f = split_fields(text.as_bytes(), 0x2c);
    if f.len() != 3 {
        return None;
    }
    assert(pieces(f@)[0] == f@[0]@ && pieces(f@)[1] == f@[1]@ && pieces(f@)[2] == f@[2]@);
    let condition = match parse_condition(f[0].as_slice(), f[1].as_slice(), sets) {
        Some(c) => c,
        None => {
            return None;
        },
    };
    match parse_target(table, f[2].as_slice()) {
        Some(target) => Some(Rule { condition, target }),
        None => None,
    }
}

/// Reads a fallback line.
pub fn parse_fallback(text: &str, table: &ProxyTable) -> (r: Option<GeneralProxy>)
    ensures
        match r {
            Some(t) => is_fallback_line(text@, table.entries@) && target_denoted(
                table.entries@,
                line_fields(text@)[1],
                t,
            ),
            None => !is_fallback_line(text@, table.entries@),
        },
{
    let f = split_fields(text.as_bytes(), 0x2c);
    if f.len() != 2 {
        return None;
    }
    assert(pieces(f@)[0] == f@[0]@ && pieces(f@)[1] == f@[1]@);
    if !bytes_eq(f[0].as_slice(), "FALLBACK".as_bytes()) {
        return None;
    }
    parse_target(table, f[1].as_slice())
}

impl DispatchingBuilder {
    /// Compiles a rule list that may end with a fallback.
    #[verifier::loop_isolation(false)]
    pub fn build_rules_loosely(&self, rules: &[RuleConfigLine]) -> (r: Result<
        (Vec<RuleOrAction>, Option<GeneralProxy>),
        BuildError,
    >)
        requires
            self.wf(),
        ensures
            match r {
                Ok((out, fallback)) => {
                    &&& lines_error(rules@, 0, self.table.entries@, self.rulesets@) is None
                    &&& rules_compiled(rules@, self.table.entries@, self.rulesets@, out@)
                    &&& fallback_compiled(rules@, self.table.entries@, fallback)
                    &&& rules_wf(out@, self.table.entries@, self.rulesets@.len() as int)
                },
                Err(e) => lines_error(rules@, 0, self.table.entries@, self.rulesets@) == Some(e),
            },
        decreases rules@, 0int,
    {
        let ghost entries = self.table.entries@;
        let ghost sets = self.rulesets@;
        let mut out: Vec<RuleOrAction> = Vec::new();
        let mut i: usize = 0;
        while i < rules.len()
            invariant
                i <= rules.len(),
                out@.len() == i,
                lines_error(rules@, 0, entries, sets) == lines_error(rules@, i as int, entries, sets),
                forall|j: int| 0 <= j < i ==> line_compiled(#[trigger] rules@[j], entries, sets, out@[j]),
                rules_wf(out@, entries, sets.len() as int),
                i == rules.len() ==> !has_fallback(rules@, entries),
            decreases rules.len() - i,
        {
            let ghost before = out@;
            match &rules[i] {
                RuleConfigLine::Complex(RuleAction::LocalResolve) => {
                    out.push(RuleOrAction::Action(Action::LocalResolve));
                },
                RuleConfigLine::Complex(RuleAction::SubDispatch(sub)) => {
                    let condition = match parse_incomplete(sub.matches.as_str(), &self.rulesets) {
                        Some(c) => c,
                        None => {
                            return Err(BuildError::BadRule);
                        },
                    };
                    let (sub_rules, sub_fallback) = match self.build_rules(sub.subrules.as_slice()) {
                        Ok(pair) => pair,
                        Err(e) => {
                            return Err(e);
                        },
                    };
                    out.push(
                        RuleOrAction::Action(
                            Action::SubDispatch(
                                SubDispatch {
                                    condition,
                                    snippet: DispatchingSnippet { rules: sub_rules, fallback: sub_fallback },
                                },
                            ),
                        ),
                    );
                },
                RuleConfigLine::Simple(text) => {
                    if i == rules.len() - 1 {
                        match parse_fallback(text.as_str(), &self.table) {
                            Some(fallback) => {
                                return Ok((out, Some(fallback)));
                            },
                            None => {},
                        }
                    }
                    match parse_literal(text.as_str(), &self.table, &self.rulesets) {
                        Some(rule) => {
                            out.push(RuleOrAction::Rule(rule));
                        },
                        None => {
                            return Err(BuildError::BadRule);
                        },
                    }
                },
            }
            proof {
                assert(out@ == before.push(out@[i as int]));
                assert forall|j: int| 0 <= j < i + 1 implies line_compiled(
                    #[trigger] rules@[j],
                    entries,
                    sets,
                    out@[j],
                ) by {
                    if j < i {
                        assert(out@[j] == before[j]);
                    }
                }
                assert forall|j: int| 0 <= j < out@.len() implies line_wf(
                    #[trigger] out@[j],
                    entries,
                    sets.len() as int,
                ) by {
                    if j < i {
                        assert(out@[j] == before[j]);
                    }
                }
            }
            i += 1;
        }
        Ok((out, None))
    }

    /// Compiles a rule list that must end with a fallback.
    pub fn build_rules(&self, rules: &[RuleConfigLine]) -> (r: Result<
        (Vec<RuleOrAction>, GeneralProxy),
        BuildError,
    >)
        requires
            self.wf(),
        ensures
            match r {
                Ok((out, fallback)) => {
                    &&& snippet_error(rules@, self.table.entries@, self.rulesets@) is None
                    &&& rules_compiled(rules@, self.table.entries@, self.rulesets@, out@)
                    &&& fallback_compiled(rules@, self.table.entries@, Some(fallback))
                    &&& rules_wf(out@, self.table.entries@, self.rulesets@.len() as int)
                    &&& fallback.valid(self.table.entries@, self.table.entries@.len() as int)
                },
                Err(e) => snippet_error(rules@, self.table.entries@, self.rulesets@) == Some(e),
            },
        decreases rules@, 1int,
    {
        match self.build_rules_loosely(rules) {
            Ok((list, Some(fallback))) => Ok((list, fallback)),
            Ok((_, None)) => Err(BuildError::MissingFallback),
            Err(e) => Err(e),
        }
    }

    /// Compiles a temporary rule list, which has no fallback.
    pub fn build_temporary_list(&self, list: &[RuleConfigLine]) -> (r: Result<TemporaryList, BuildError>)
        requires
            self.wf(),
        ensures
            match r {
                Ok(t) => {
                    &&& temporary_error(list@, self.table.entries@, self.rulesets@) is None
                    &&& rules_compiled(list@, self.table.entries@, self.rulesets@, t.rules@)
                    &&& t.wf(self.table.entries@, self.rulesets@.len() as int)
                },
                Err(e) => temporary_error(list@, self.table.entries@, self.rulesets@) == Some(e),
            },
    {
        match self.build_rules_loosely(list) {
            Ok((rules, None)) => Ok(TemporaryList::new(rules)),
            Ok((_, Some(_))) => Err(BuildError::UnexpectedFallback),
            Err(e) => Err(e),
        }
    }
}

impl RuleSet {
    /// The rule set of the name with the conditions that the lines of the
    /// schema name, in order. A line of a rule set is a condition line, and
    /// names no rule set.
    pub fn new(name: &str, schema: &RuleSchema) -> (r: Option<RuleSet>)
        ensures
            match r {
                Some(set) => {
                    &&& set.name@ == name@
                    &&& set.conditions@.len() == schema.payload@.len()
                    &&& forall|i: int|
                        0 <= i < schema.payload@.len() ==> is_condition_line(
                            (#[trigger] schema.payload@[i])@,
                            Seq::empty(),
                        ) && condition_denoted(
                            line_fields(schema.payload@[i]@)[0],
                            line_fields(schema.payload@[i]@)[1],
                            Seq::empty(),
                            set.conditions@[i],
                        )
                },
                None => exists|i: int|
                    0 <= i < schema.payload@.len() && !is_condition_line(
                        (#[trigger] schema.payload@[i])@,
                        Seq::empty(),
                    ),
            },
    {
        let none: Vec<RuleSet> = Vec::new();
        let mut conditions: Vec<Condition> = Vec::new();
        let mut i: usize = 0;
        while i < schema.payload.len()
            invariant
                i <= schema.payload@.len(),
                none@ == Seq::<RuleSet>::empty(),
                conditions@.len() == i,
                forall|j: int|
                    0 <= j < i ==> is_condition_line((#[trigger] schema.payload@[j])@, Seq::empty())
                        && condition_denoted(
                        line_fields(schema.payload@[j]@)[0],
                        line_fields(schema.payload@[j]@)[1],
                        Seq::empty(),
                        conditions@[j],
                    ),
            decreases schema.payload@.len() - i,
        {
            match parse_incomplete(schema.payload[i].as_str(), &none) {
                Some(c) => {
                    conditions.push(c);
                },
                None => {
                    return None;
                },
            }
            i += 1;
        }
        Some(RuleSet { name: name.to_owned(), conditions })
    }
}

/// Why a temporary list is refused, if it is: for a line that cannot be
/// read, or for a fallback at its end.
pub open spec fn temporary_error(lines: Seq<RuleConfigLine>, entries: Seq<Entry>, sets: Seq<RuleSet>) -> Option<
    BuildError,
> {
    if lines_error(lines, 0, entries, sets) is Some {
        lines_error(lines, 0, entries, sets)
    } else if has_fallback(lines, entries) {
        Some(BuildError::UnexpectedFallback)
    } else {
        None
    }
}

} // verus!
