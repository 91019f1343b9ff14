//! Building proxy groups and chains: what a configured group means, and the
//! depth-first walk that adds the groups to the table so that every group
//! comes after its members.

use crate::builder::{copy_text, entry_names, BuildError};
use crate::config::{
    GroupSelection, NamedProxySchema, ProxySchema, RawProxyGroupCfg, RawProxyProviderOption,
    RawProxyWithName, RawState,
};
use crate::proxy::{table_wf, Entry, GeneralProxy, Proxy, ProxyGroup, ProxyImpl, ProxyTable};
use crate::text::str_eq;
use crate::trusted::{
    group_entries, group_list_get, regex_is_match, regex_matches, regex_new, regex_valid,
};
use linked_hash_map::LinkedHashMap;
use vstd::prelude::*;

verus! {

/// The configured groups, each with its name.
pub type GroupEntries = Seq<(Seq<char>, RawProxyGroupCfg)>;

/// The texts of an optional list.
pub open spec fn text_list(v: Option<Vec<String>>) -> Seq<Seq<char>> {
    match v {
        Some(l) => Seq::new(l@.len(), |i: int| l@[i]@),
        None => Seq::empty(),
    }
}

/// The providers of an optional list.
pub open spec fn provider_list(v: Option<Vec<RawProxyProviderOption>>) -> Seq<RawProxyProviderOption> {
    match v {
        Some(l) => l@,
        None => Seq::empty(),
    }
}

/// Whether `k` is the first provider of the name `name`.
pub open spec fn is_provider(schema: Seq<NamedProxySchema>, name: Seq<char>, k: int) -> bool {
    0 <= k < schema.len() && schema[k].name@ == name && forall|j: int|
        0 <= j < k ==> schema[j].name@ != name
}

/// The contents of the provider named `name`, if there is one.
pub open spec fn provider_of(schema: Seq<NamedProxySchema>, name: Seq<char>) -> Option<ProxySchema> {
    if exists|k: int| is_provider(schema, name, k) {
        Some(schema[choose|k: int| is_provider(schema, name, k)].schema)
    } else {
        None
    }
}

/// The names of the first `n` proxies of a provider, without those that the
/// filter, if there is one, does not match.
pub open spec fn matching_names(proxies: Seq<RawProxyWithName>, filter: Option<Seq<char>>, n: int) -> Seq<
    Seq<char>,
>
    decreases n,
{
    if n <= 0 {
        Seq::empty()
    } else {
        let rest = matching_names(proxies, filter, n - 1);
        let name = proxies[n - 1].name@;
        if filter matches Some(f) && !regex_matches(f, name) {
            rest
        } else {
            rest.push(name)
        }
    }
}

impl RawProxyProviderOption {
    /// The name of the provider.
    pub open spec fn provider(self) -> Seq<char> {
        match self {
            RawProxyProviderOption::Name(n) => n@,
            RawProxyProviderOption::Filter { name, .. } => name@,
        }
    }

    /// The filter on the provider's proxies, if there is one.
    pub open spec fn filter(self) -> Option<Seq<char>> {
        match self {
            RawProxyProviderOption::Name(_) => None,
            RawProxyProviderOption::Filter { filter, .. } => Some(filter@),
        }
    }

    /// Whether the filter, if there is one, is a regular expression.
    pub open spec fn filter_valid(self) -> bool {
        match self.filter() {
            Some(f) => regex_valid(f),
            None => true,
        }
    }

    /// The names of the proxies that the group draws from the provider.
    pub open spec fn names(self, schema: Seq<NamedProxySchema>) -> Seq<Seq<char>> {
        match provider_of(schema, self.provider()) {
            Some(s) => matching_names(s.proxies@, self.filter(), s.proxies@.len() as int),
            None => Seq::empty(),
        }
    }
}

/// The names that the first `n` providers give, in order.
pub open spec fn providers_names(
    schema: Seq<NamedProxySchema>,
    providers: Seq<RawProxyProviderOption>,
    n: int,
) -> Seq<Seq<char>>
    decreases n,
{
    if n <= 0 {
        Seq::empty()
    } else {
        providers_names(schema, providers, n - 1) + providers[n - 1].names(schema)
    }
}

impl RawProxyGroupCfg {
    /// The names of the members of a selection, in order: the proxies and
    /// groups that it lists, then what its providers give.
    pub open spec fn member_names(self, schema: Seq<NamedProxySchema>) -> Seq<Seq<char>> {
        text_list(self.proxies) + providers_names(
            schema,
            provider_list(self.providers),
            provider_list(self.providers).len() as int,
        )
    }

    /// The names that may be names of other groups: the hops of a chain, or
    /// the proxies and groups that a selection lists.
    pub open spec fn direct_refs(self) -> Seq<Seq<char>> {
        if self.chains is Some {
            text_list(self.chains)
        } else {
            text_list(self.proxies)
        }
    }

    /// Whether the group is a selection without a member.
    pub open spec fn is_empty(self, schema: Seq<NamedProxySchema>) -> bool {
        self.chains is None && self.member_names(schema).len() == 0
    }
}

/// The member that the state selects in the group `group`, going by the
/// first `n` records: the last of them on the group decides, and without one
/// it is the empty name.
pub open spec fn selection_for(records: Seq<GroupSelection>, group: Seq<char>, n: int) -> Seq<char>
    decreases n,
{
    if n <= 0 {
        Seq::empty()
    } else if records[n - 1].group@ == group {
        records[n - 1].proxy@
    } else {
        selection_for(records, group, n - 1)
    }
}

/// The position of the selected member among the first `n` names: the last
/// one of the wanted name, or the first member where none has it.
pub open spec fn selection_index(names: Seq<Seq<char>>, want: Seq<char>, n: int) -> int
    decreases n,
{
    if n <= 0 {
        0
    } else if names[n - 1] == want {
        n - 1
    } else {
        selection_index(names, want, n - 1)
    }
}

/// Whether the reference is to the entry of the name `name`.
pub open spec fn refers(entries: Seq<Entry>, g: GeneralProxy, name: Seq<char>) -> bool {
    g.valid(entries, entries.len() as int) && entries[g.index()].name() == name
}

/// Whether the entry is the chain of the configured group: its hops are the
/// configured ones, last first.
pub open spec fn is_chain_of(entries: Seq<Entry>, e: Entry, name: Seq<char>, g: RawProxyGroupCfg) -> bool {
    match e {
        Entry::Proxy(p) => match p.imp {
            ProxyImpl::Chain(hops) => {
                &&& p.name@ == name
                &&& hops@.len() == text_list(g.chains).len()
                &&& forall|j: int|
                    0 <= j < hops@.len() ==> refers(
                        entries,
                        #[trigger] hops@[j],
                        text_list(g.chains)[text_list(g.chains).len() - 1 - j],
                    )
            },
            _ => false,
        },
        Entry::Group(_) => false,
    }
}

/// Whether the entry is the selection of the configured group: its members
/// are the configured ones in order, the member that the state names is
/// selected, and the interface is the configured one.
pub open spec fn is_selection_of(
    entries: Seq<Entry>,
    e: Entry,
    name: Seq<char>,
    g: RawProxyGroupCfg,
    state: RawState,
    schema: Seq<NamedProxySchema>,
) -> bool {
    let m = g.member_names(schema);
    match e {
        Entry::Group(grp) => {
            &&& grp.name@ == name
            &&& grp.members@.len() == m.len()
            &&& forall|j: int| 0 <= j < m.len() ==> refers(entries, #[trigger] grp.members@[j], m[j])
            &&& grp.selected == selection_index(
                m,
                selection_for(state.group_selection@, name, state.group_selection@.len() as int),
                m.len() as int,
            )
            &&& grp.interface == g.interface
        },
        Entry::Proxy(_) => false,
    }
}

/// Whether the table holds what the configured group at `gi` asks for: its
/// chain, or its selection where that has a member.
pub open spec fn settled(
    entries: Seq<Entry>,
    base: int,
    groups: GroupEntries,
    state: RawState,
    schema: Seq<NamedProxySchema>,
    gi: int,
) -> bool {
    let name = groups[gi].0;
    let g = groups[gi].1;
    if g.chains is Some {
        exists|k: int| base <= k < entries.len() && is_chain_of(entries, #[trigger] entries[k], name, g)
    } else {
        g.member_names(schema).len() > 0 ==> exists|k: int|
            base <= k < entries.len() && is_selection_of(
                entries,
                #[trigger] entries[k],
                name,
                g,
                state,
                schema,
            )
    }
}

/// Whether the group at `gi` names the group at `pi` as a hop or a member.
pub open spec fn edge(groups: GroupEntries, gi: int, pi: int) -> bool {
    0 <= gi < groups.len() && 0 <= pi < groups.len() && groups[gi].1.direct_refs().contains(
        groups[pi].0,
    )
}

/// Whether `cycle` is a sequence of groups of which each names the next, and
/// the last names the first.
pub open spec fn is_cycle(groups: GroupEntries, cycle: Seq<int>) -> bool {
    &&& cycle.len() > 0
    &&& forall|i: int| 0 <= i < cycle.len() - 1 ==> edge(groups, #[trigger] cycle[i], cycle[i + 1])
    &&& edge(groups, cycle.last(), cycle[0])
}

/// Whether some group is, through its members, a member of itself.
pub open spec fn has_cycle(groups: GroupEntries) -> bool {
    exists|cycle: Seq<int>| is_cycle(groups, cycle)
}

/// Whether a configured proxy has the name `name`. `base` holds the names
/// of the configured proxies.
pub open spec fn is_base_name(base: Seq<Seq<char>>, name: Seq<char>) -> bool {
    base.contains(name)
}

/// Whether some group has the name `name`.
pub open spec fn is_group_name(groups: GroupEntries, name: Seq<char>) -> bool {
    exists|i: int| 0 <= i < groups.len() && (#[trigger] groups[i]).0 == name
}

/// Whether the name is that of a selection without a member.
pub open spec fn is_empty_group_name(groups: GroupEntries, schema: Seq<NamedProxySchema>, name: Seq<char>) -> bool {
    exists|i: int| 0 <= i < groups.len() && (#[trigger] groups[i]).0 == name && groups[i].1.is_empty(schema)
}

/// Whether the group at `gi` shows the defect that the error stands for:
/// its name is that of a configured proxy; it is neither a chain nor a
/// selection, or both; a filter of its providers is no regular expression;
/// it names a provider that does not exist, or a member that is neither a
/// configured proxy nor a group with a member.
pub open spec fn group_defect(
    e: BuildError,
    base: Seq<Seq<char>>,
    groups: GroupEntries,
    schema: Seq<NamedProxySchema>,
    gi: int,
) -> bool {
    let name = groups[gi].0;
    let g = groups[gi].1;
    match e {
        BuildError::DuplicateName => is_base_name(base, name),
        BuildError::InvalidGroup => !g.spec_roughly_validate(),
        BuildError::BadRegex => exists|j: int|
            0 <= j < provider_list(g.providers).len() && !(#[trigger] provider_list(
                g.providers,
            )[j]).filter_valid(),
        BuildError::UnknownReference => {
            ||| exists|j: int|
                0 <= j < provider_list(g.providers).len() && provider_of(
                    schema,
                    (#[trigger] provider_list(g.providers)[j]).provider(),
                ) is None
            ||| exists|j: int|
                0 <= j < g.direct_refs().len() && !is_base_name(base, #[trigger] g.direct_refs()[j])
                    && (!is_group_name(groups, g.direct_refs()[j]) || is_empty_group_name(
                    groups,
                    schema,
                    g.direct_refs()[j],
                ))
        },
        _ => false,
    }
}

/// Whether the configured groups show the defect that the error stands for.
pub open spec fn groups_defect(
    e: BuildError,
    base: Seq<Seq<char>>,
    groups: GroupEntries,
    schema: Seq<NamedProxySchema>,
) -> bool {
    if e == BuildError::CycleDetected {
        has_cycle(groups)
    } else {
        exists|gi: int| 0 <= gi < groups.len() && #[trigger] group_defect(e, base, groups, schema, gi)
    }
}

impl RawProxyProviderOption {
    /// Why the provider is refused, if it is: for a filter that is no
    /// regular expression, else for a name that no provider has.
    pub open spec fn error(self, schema: Seq<NamedProxySchema>) -> Option<BuildError> {
        if !self.filter_valid() {
            Some(BuildError::BadRegex)
        } else if provider_of(schema, self.provider()) is None {
            Some(BuildError::UnknownReference)
        } else {
            None
        }
    }
}

/// Why the first `n` providers are refused, if they are: the first of them
/// that is refused decides.
pub open spec fn providers_error(
    schema: Seq<NamedProxySchema>,
    providers: Seq<RawProxyProviderOption>,
    n: int,
) -> Option<BuildError>
    decreases n,
{
    if n <= 0 {
        None
    } else if providers_error(schema, providers, n - 1) is Some {
        providers_error(schema, providers, n - 1)
    } else {
        providers[n - 1].error(schema)
    }
}

/// The first refusal among providers stays the first when more providers
/// follow.
pub proof fn providers_error_stays(
    schema: Seq<NamedProxySchema>,
    providers: Seq<RawProxyProviderOption>,
    n: int,
    m: int,
)
    requires
        0 < n <= m,
        providers_error(schema, providers, n) is Some,
    ensures
        providers_error(schema, providers, m) == providers_error(schema, providers, n),
    decreases m - n,
{
    if n < m {
        providers_error_stays(schema, providers, n, m - 1);
    }
}

impl RawProxyGroupCfg {
    /// The names of the hops of a chain in the order in which they are
    /// resolved: last first.
    pub open spec fn hop_refs(self) -> Seq<Seq<char>> {
        let hops = text_list(self.chains);
        Seq::new(hops.len(), |j: int| hops[hops.len() - 1 - j])
    }
}

/// What the configured groups are walked with: the groups, the number of
/// names that the table had before any group was added, and the providers.
pub struct Walk {
    pub groups: GroupEntries,
    pub base: int,
    pub schema: Seq<NamedProxySchema>,
}

/// The index of the group of the name `name`.
pub open spec fn group_named(groups: GroupEntries, name: Seq<char>) -> int {
    choose|i: int| 0 <= i < groups.len() && (#[trigger] groups[i]).0 == name
}

/// The names in the table when the group at `gi` was added to a table
/// with the names `names`, after the groups that it names; or why the
/// walk is refused. `marks` marks the groups on the path to this one; a
/// group that is found marked is, through its members, a member of itself.
/// A group whose name is in the table is left as it is, unless `dup` is set
/// or the name is that of a configured proxy.
pub open spec fn walk_group(
    w: Walk,
    names: Seq<Seq<char>>,
    marks: Seq<bool>,
    gi: int,
    dup: bool,
) -> Result<Seq<Seq<char>>, BuildError>
    decreases unmarked(marks), 3int, 0int,
{
    if !(0 <= gi < w.groups.len() && gi < marks.len()) {
        Err(BuildError::UnknownReference)
    } else if marks[gi] {
        Err(BuildError::CycleDetected)
    } else if names.contains(w.groups[gi].0) {
        if dup || names.subrange(0, w.base).contains(w.groups[gi].0) {
            Err(BuildError::DuplicateName)
        } else {
            Ok(names)
        }
    } else if !w.groups[gi].1.spec_roughly_validate() {
        Err(BuildError::InvalidGroup)
    } else if w.groups[gi].1.chains is Some {
        match walk_refs(w, names, marks, gi, w.groups[gi].1.hop_refs(), 0) {
            Ok(n) => Ok(n.push(w.groups[gi].0)),
            Err(e) => Err(e),
        }
    } else {
        let g = w.groups[gi].1;
        match walk_refs(w, names, marks, gi, text_list(g.proxies), 0) {
            Ok(n) => {
                let providers = provider_list(g.providers);
                if providers_error(w.schema, providers, providers.len() as int) is Some {
                    Err(providers_error(w.schema, providers, providers.len() as int)->0)
                } else if g.member_names(w.schema).len() == 0 {
                    Ok(n)
                } else {
                    Ok(n.push(w.groups[gi].0))
                }
            },
            Err(e) => Err(e),
        }
    }
}

/// The names in the table when the names `refs` from position `i` on,
/// which the group at `gi` lists, were resolved in order; or why the walk is
/// refused.
pub open spec fn walk_refs(
    w: Walk,
    names: Seq<Seq<char>>,
    marks: Seq<bool>,
    gi: int,
    refs: Seq<Seq<char>>,
    i: int,
) -> Result<Seq<Seq<char>>, BuildError>
    decreases unmarked(marks), 2int, refs.len() - i,
{
    if 0 <= i < refs.len() {
        match walk_ref(w, names, marks, gi, refs[i]) {
            Ok(n) => walk_refs(w, n, marks, gi, refs, i + 1),
            Err(e) => Err(e),
        }
    } else {
        Ok(names)
    }
}

/// The names in the table when the name `p`, which the group at `gi`
/// lists, was resolved: a name of the table resolves as it is; the name of a
/// group is resolved by adding that group, with the group at `gi` marked;
/// any other name, and the name of a group that is not added because it has
/// no member, refuses the walk.
pub open spec fn walk_ref(
    w: Walk,
    names: Seq<Seq<char>>,
    marks: Seq<bool>,
    gi: int,
    p: Seq<char>,
) -> Result<Seq<Seq<char>>, BuildError>
    decreases unmarked(marks), 1int, 0int,
{
    if names.contains(p) {
        Ok(names)
    } else if is_group_name(w.groups, p) && 0 <= gi < marks.len() && !marks[gi] {
        proof {
            unmarked_after_mark(marks, gi);
        }
        match walk_group(w, names, marks.update(gi, true), group_named(w.groups, p), true) {
            Ok(n) => if n.contains(p) {
                Ok(n)
            } else {
                Err(BuildError::UnknownReference)
            },
            Err(e) => Err(e),
        }
    } else {
        Err(BuildError::UnknownReference)
    }
}

/// The names in the table when the groups from `from` on were added, each
/// after the groups that it names, in the order of the list; or why the
/// walk is refused: for the first defect that it meets.
pub open spec fn walk_all(w: Walk, names: Seq<Seq<char>>, from: int) -> Result<Seq<Seq<char>>, BuildError>
    decreases w.groups.len() - from,
{
    if 0 <= from < w.groups.len() {
        match walk_group(w, names, Seq::new(w.groups.len(), |i: int| false), from, false) {
            Ok(n) => walk_all(w, n, from + 1),
            Err(e) => Err(e),
        }
    } else {
        Ok(names)
    }
}

/// Where the groups of a configuration come from.
pub struct GroupSource<'a> {
    /// The names of the groups, in the order of the list.
    pub names: &'a Vec<String>,
    pub list: &'a LinkedHashMap<String, RawProxyGroupCfg>,
    pub state: &'a RawState,
    pub schema: &'a Vec<NamedProxySchema>,
    /// The number of entries that the table had before any group was added.
    pub base: usize,
    /// The names of those entries.
    pub base_names: Ghost<Seq<Seq<char>>>,
}

impl<'a> GroupSource<'a> {
    /// The configured groups.
    pub open spec fn groups(&self) -> GroupEntries {
        group_entries(*self.list)
    }

    /// Whether the names are those of the groups, in order, each once.
    pub open spec fn wf(&self) -> bool {
        &&& self.names@.len() == self.groups().len()
        &&& forall|i: int| 0 <= i < self.names@.len() ==> (#[trigger] self.names@[i])@ == self.groups()[i].0
        &&& forall|i: int, j: int|
            0 <= i < j < self.groups().len() ==> (#[trigger] self.groups()[i]).0 != (
            #[trigger] self.groups()[j]).0
        &&& self.base_names@.len() == self.base
    }

    /// Whether the table holds the configured proxies, those of every
    /// provider among them, and after them only entries of groups that are
    /// settled.
    pub open spec fn holds(&self, entries: Seq<Entry>) -> bool {
        &&& table_wf(entries)
        &&& self.base <= entries.len()
        &&& forall|k: int| 0 <= k < self.base ==> (#[trigger] entries[k]).name() == self.base_names@[k]
        &&& forall|k: int| 0 <= k < self.base ==> (#[trigger] entries[k]) is Proxy
        &&& forall|s: int, q: int|
            0 <= s < self.schema@.len() && 0 <= q < self.schema@[s].schema.proxies@.len()
                ==> self.base_names@.contains((#[trigger] self.schema@[s].schema.proxies@[q]).name@)
        &&& forall|k: int| self.base <= k < entries.len() ==> #[trigger] self.owned(entries, k)
    }

    /// Whether the entry at `k` is that of a settled group.
    pub open spec fn owned(&self, entries: Seq<Entry>, k: int) -> bool {
        exists|gi: int|
            0 <= gi < self.groups().len() && (#[trigger] self.groups()[gi]).0 == entries[k].name()
                && self.settled(entries, gi)
    }

    /// Whether the table holds what the group at `gi` asks for.
    pub open spec fn settled(&self, entries: Seq<Entry>, gi: int) -> bool {
        settled(entries, self.base as int, self.groups(), *self.state, self.schema@, gi)
    }

    /// What the groups are walked with.
    pub open spec fn walk(&self) -> Walk {
        Walk { groups: self.groups(), base: self.base as int, schema: self.schema@ }
    }

    /// Whether the configured groups show the defect that the error stands
    /// for.
    pub open spec fn defect(&self, e: BuildError) -> bool {
        groups_defect(e, self.base_names@, self.groups(), self.schema@)
    }
}

/// Whether the result of a step of the walk is the one that the walk gives:
/// the table's names, or the error.
pub open spec fn walked<T>(
    step: Result<Seq<Seq<char>>, BuildError>,
    r: Result<T, BuildError>,
    after: Seq<Entry>,
) -> bool {
    match r {
        Ok(_) => step == Ok::<Seq<Seq<char>>, BuildError>(entry_names(after)),
        Err(e) => step == Err::<Seq<Seq<char>>, BuildError>(e),
    }
}

/// A name is among the names of a table exactly if an entry has it.
pub proof fn names_contain(entries: Seq<Entry>, name: Seq<char>)
    ensures
        entry_names(entries).contains(name) <==> exists|k: int|
            0 <= k < entries.len() && (#[trigger] entries[k]).name() == name,
{
    if entry_names(entries).contains(name) {
        let i = choose|i: int| 0 <= i < entry_names(entries).len() && entry_names(entries)[i] == name;
        assert(entries[i].name() == name);
    }
    if exists|k: int| 0 <= k < entries.len() && (#[trigger] entries[k]).name() == name {
        let k = choose|k: int| 0 <= k < entries.len() && (#[trigger] entries[k]).name() == name;
        assert(entry_names(entries)[k] == name);
    }
}

/// Whether `after` begins with `before`.
pub open spec fn extends(before: Seq<Entry>, after: Seq<Entry>) -> bool {
    before.len() <= after.len() && forall|k: int| 0 <= k < before.len() ==> after[k] == before[k]
}

/// Whether each entry of `after` behind `before` has the name of a group
/// that is not marked in `on_path`.
pub open spec fn added_off_path(
    groups: GroupEntries,
    before: Seq<Entry>,
    after: Seq<Entry>,
    on_path: Seq<bool>,
) -> bool {
    forall|k: int|
        before.len() <= k < after.len() ==> names_unmarked(groups, on_path, (#[trigger] after[k]).name())
}

/// Whether the name is that of a group that is not marked in `on_path`.
pub open spec fn names_unmarked(groups: GroupEntries, on_path: Seq<bool>, name: Seq<char>) -> bool {
    exists|g: int|
        0 <= g < groups.len() && g < on_path.len() && (#[trigger] groups[g]).0 == name && !on_path[g]
}

/// Whether the marks are those of the groups on the path, each of which
/// names the next.
pub open spec fn path_ok(groups: GroupEntries, on_path: Seq<bool>, path: Seq<int>) -> bool {
    &&& on_path.len() == groups.len()
    &&& forall|i: int| 0 <= i < path.len() ==> 0 <= #[trigger] path[i] < groups.len()
    &&& forall|x: int| 0 <= x < on_path.len() && #[trigger] on_path[x] ==> path.contains(x)
    &&& forall|i: int| 0 <= i < path.len() - 1 ==> edge(groups, #[trigger] path[i], path[i + 1])
}

/// The number of groups that are not marked.
pub open spec fn unmarked(on_path: Seq<bool>) -> nat
    decreases on_path.len(),
{
    if on_path.len() == 0 {
        0
    } else {
        unmarked(on_path.drop_last()) + if on_path.last() {
            0nat
        } else {
            1nat
        }
    }
}

/// Marking a group that was not marked leaves one unmarked group less.
pub proof fn unmarked_after_mark(on_path: Seq<bool>, x: int)
    requires
        0 <= x < on_path.len(),
        !on_path[x],
    ensures
        unmarked(on_path.update(x, true)) + 1 == unmarked(on_path),
    decreases on_path.len(),
{
    let after = on_path.update(x, true);
    if x == on_path.len() - 1 {
        assert(after.drop_last() =~= on_path.drop_last());
    } else {
        assert(after.drop_last() =~= on_path.drop_last().update(x, true));
        unmarked_after_mark(on_path.drop_last(), x);
    }
}

/// What is settled in a table stays settled when entries are added.
pub proof fn settled_stays(
    before: Seq<Entry>,
    after: Seq<Entry>,
    base: int,
    groups: GroupEntries,
    state: RawState,
    schema: Seq<NamedProxySchema>,
    gi: int,
)
    requires
        extends(before, after),
        0 <= base,
        0 <= gi < groups.len(),
        settled(before, base, groups, state, schema, gi),
    ensures
        settled(after, base, groups, state, schema, gi),
{
    let name = groups[gi].0;
    let g = groups[gi].1;
    if g.chains is Some {
        let k = choose|k: int| base <= k < before.len() && is_chain_of(before, #[trigger] before[k], name, g);
        assert(after[k] == before[k]);
        assert(is_chain_of(after, after[k], name, g)) by {
            let hops = after[k]->Proxy_0.imp->Chain_0;
            assert forall|j: int| 0 <= j < hops@.len() implies refers(
                after,
                #[trigger] hops@[j],
                text_list(g.chains)[text_list(g.chains).len() - 1 - j],
            ) by {
                assert(refers(before, hops@[j], text_list(g.chains)[text_list(g.chains).len() - 1 - j]));
            }
        }
    } else if g.member_names(schema).len() > 0 {
        let k = choose|k: int|
            base <= k < before.len() && is_selection_of(before, #[trigger] before[k], name, g, state, schema);
        assert(after[k] == before[k]);
        assert(is_selection_of(after, after[k], name, g, state, schema)) by {
            let grp = after[k]->Group_0;
            let m = g.member_names(schema);
            assert forall|j: int| 0 <= j < m.len() implies refers(after, #[trigger] grp.members@[j], m[j]) by {
                assert(refers(before, grp.members@[j], m[j]));
            }
        }
    }
}

/// The selected position among names does not depend on what follows them.
pub proof fn selection_index_prefix(names: Seq<Seq<char>>, x: Seq<char>, want: Seq<char>, n: int)
    requires
        0 <= n <= names.len(),
    ensures
        selection_index(names.push(x), want, n) == selection_index(names, want, n),
    decreases n,
{
    if n > 0 {
        selection_index_prefix(names, x, want, n - 1);
        assert(names.push(x)[n - 1] == names[n - 1]);
    }
}

/// The selected position after one more name: that of the new name where it
/// is the wanted one, else the one before.
pub proof fn selection_index_push(names: Seq<Seq<char>>, x: Seq<char>, want: Seq<char>)
    ensures
        selection_index(names.push(x), want, names.len() as int + 1) == if x == want {
            names.len() as int
        } else {
            selection_index(names, want, names.len() as int)
        },
{
    selection_index_prefix(names, x, want, names.len() as int);
    assert(names.push(x)[names.len() as int] == x);
}

/// The selected position is that of a member, where there is one.
pub proof fn selection_index_in_range(names: Seq<Seq<char>>, want: Seq<char>, n: int)
    requires
        0 <= n,
    ensures
        0 <= selection_index(names, want, n),
        n > 0 ==> selection_index(names, want, n) < n,
    decreases n,
{
    if n > 0 {
        selection_index_in_range(names, want, n - 1);
    }
}

/// The position of the name `name` in `names`.
pub fn find_name(names: &Vec<String>, name: &str) -> (r: Option<usize>)
    ensures
        match r {
            Some(i) => i < names.len() && names[i as int]@ == name@,
            None => forall|j: int| 0 <= j < names.len() ==> names[j]@ != name@,
        },
{
    let mut i: usize = 0;
    while i < names.len()
        invariant
            i <= names.len(),
            forall|j: int| 0 <= j < i ==> names[j]@ != name@,
        decreases names.len() - i,
    {
        if str_eq(names[i].as_str(), name) {
            return Some(i);
        }
        i += 1;
    }
    None
}

/// The contents of the provider named `name`.
pub fn find_provider<'a>(schema: &'a Vec<NamedProxySchema>, name: &str) -> (r: Option<&'a ProxySchema>)
    ensures
        match r {
            Some(s) => provider_of(schema@, name@) == Some(*s) && exists|k: int|
                0 <= k < schema@.len() && (#[trigger] schema@[k]).schema == *s,
            None => provider_of(schema@, name@) is None,
        },
{
    let mut i: usize = 0;
    while i < schema.len()
        invariant
            i <= schema.len(),
            forall|j: int| 0 <= j < i ==> schema[j].name@ != name@,
        decreases schema.len() - i,
    {
        if str_eq(schema[i].name.as_str(), name) {
            assert(is_provider(schema@, name@, i as int));
            let ghost c = choose|k: int| is_provider(schema@, name@, k);
            assert(c == i) by {
                if c < i {
                    assert(schema[c].name@ != name@);
                }
            }
            return Some(&schema[i].schema);
        }
        i += 1;
    }
    None
}

/// The member that the state selects in the group `group`, or the empty
/// name.
pub fn stored_selection<'a>(records: &'a Vec<GroupSelection>, group: &str) -> (r: Option<&'a String>)
    ensures
        match r {
            Some(s) => s@ == selection_for(records@, group@, records@.len() as int),
            None => selection_for(records@, group@, records@.len() as int) == Seq::<char>::empty(),
        },
{
    let mut found: Option<&String> = None;
    let mut i: usize = 0;
    while i < records.len()
        invariant
            i <= records.len(),
            match found {
                Some(s) => s@ == selection_for(records@, group@, i as int),
                None => selection_for(records@, group@, i as int) == Seq::<char>::empty(),
            },
        decreases records.len() - i,
    {
        if str_eq(records[i].group.as_str(), group) {
            found = Some(&records[i].proxy);
        }
        i += 1;
    }
    found
}

/// Whether the text is the wanted one; without a wanted one, whether it is
/// empty.
pub fn is_wanted(text: &str, want: Option<&String>) -> (b: bool)
    ensures
        b == (text@ == match want {
            Some(w) => w@,
            None => Seq::<char>::empty(),
        }),
{
    match want {
        Some(w) => str_eq(text, w.as_str()),
        None => {
            let b = text.as_bytes();
            proof {
                if b@.len() == 0 {
                    crate::text::utf8_injective(text@, Seq::<char>::empty());
                }
            }
            b.len() == 0
        },
    }
}

/// Whether the references are to the entries of the names, one for one.
pub open spec fn all_refer(entries: Seq<Entry>, arr: Seq<GeneralProxy>, names: Seq<Seq<char>>) -> bool {
    arr.len() == names.len() && forall|j: int|
        0 <= j < names.len() ==> refers(entries, #[trigger] arr[j], names[j])
}

/// The wanted name, or the empty name.
pub open spec fn wanted(want: Option<&String>) -> Seq<char> {
    match want {
        Some(w) => w@,
        None => Seq::empty(),
    }
}

/// References stay what they are when entries are added.
pub proof fn all_refer_stays(before: Seq<Entry>, after: Seq<Entry>, arr: Seq<GeneralProxy>, names: Seq<Seq<char>>)
    requires
        extends(before, after),
        all_refer(before, arr, names),
    ensures
        all_refer(after, arr, names),
{
    assert forall|j: int| 0 <= j < names.len() implies refers(after, #[trigger] arr[j], names[j]) by {
        assert(refers(before, arr[j], names[j]));
    }
}

/// Adds to `arr` the proxies that the group draws from one provider, and
/// moves the selection to the last of them that has the wanted name.
fn add_provider_members(
    table: &ProxyTable,
    src: &GroupSource,
    prov: &RawProxyProviderOption,
    want: Option<&String>,
    arr: &mut Vec<GeneralProxy>,
    selection: &mut usize,
    Ghost(names): Ghost<Seq<Seq<char>>>,
) -> (r: Result<(), BuildError>)
    requires
        src.wf(),
        src.holds(table.entries@),
        all_refer(table.entries@, old(arr)@, names),
        *old(selection) == selection_index(names, wanted(want), names.len() as int),
    ensures
        match r {
            Ok(()) => {
                let all = names + prov.names(src.schema@);
                &&& prov.error(src.schema@) is None
                &&& all_refer(table.entries@, final(arr)@, all)
                &&& *final(selection) == selection_index(all, wanted(want), all.len() as int)
            },
            Err(e) => prov.error(src.schema@) == Some(e),
        },
{
    let (pname, regex) = match prov {
        RawProxyProviderOption::Name(n) => (n, None),
        RawProxyProviderOption::Filter { name, filter } => match regex_new(filter.as_str()) {
            Some(re) => (name, Some(re)),
            None => {
                return Err(BuildError::BadRegex);
            },
        },
    };
    let sp = match find_provider(src.schema, pname.as_str()) {
        Some(s) => s,
        None => {
            return Err(BuildError::UnknownReference);
        },
    };
    let ghost si = choose|k: int| 0 <= k < src.schema@.len() && (#[trigger] src.schema@[k]).schema == *sp;
    let mut q: usize = 0;
    assert(names + matching_names(sp.proxies@, prov.filter(), 0) =~= names);
    while q < sp.proxies.len()
        invariant
            q <= sp.proxies.len(),
            src.wf(),
            src.holds(table.entries@),
            0 <= si < src.schema@.len() && src.schema@[si].schema == *sp,
            match regex {
                Some(re) => prov.filter() == Some(crate::trusted::regex_source(re)),
                None => prov.filter() is None,
            },
            all_refer(
                table.entries@,
                arr@,
                names + matching_names(sp.proxies@, prov.filter(), q as int),
            ),
            *selection == selection_index(
                names + matching_names(sp.proxies@, prov.filter(), q as int),
                wanted(want),
                (names + matching_names(sp.proxies@, prov.filter(), q as int)).len() as int,
            ),
        decreases sp.proxies.len() - q,
    {
        let entry = &sp.proxies[q];
        let ghost so_far = names + matching_names(sp.proxies@, prov.filter(), q as int);
        let keep = match &regex {
            Some(re) => regex_is_match(re, entry.name.as_str()),
            None => true,
        };
        if keep {
            proof {
                assert(src.base_names@.contains(src.schema@[si].schema.proxies@[q as int].name@));
                let k0 = choose|k: int| 0 <= k < src.base_names@.len() && src.base_names@[k] == entry.name@;
                assert(table.entries@[k0].name() == entry.name@);
                assert(table.entries@[k0] is Proxy);
            }
            match table.find(entry.name.as_str()) {
                Some(k) => {
                    match &table.entries[k] {
                        Entry::Proxy(_) => {
                            if is_wanted(entry.name.as_str(), want) {
                                *selection = arr.len();
                            }
                            arr.push(GeneralProxy::Single(k));
                            proof {
                                selection_index_push(so_far, entry.name@, wanted(want));
                                assert(names + matching_names(sp.proxies@, prov.filter(), q + 1)
                                    =~= so_far.push(entry.name@));
                            }
                        },
                        Entry::Group(_) => {
                            return Err(BuildError::UnknownReference);
                        },
                    }
                },
                None => {
                    return Err(BuildError::UnknownReference);
                },
            }
        }
        q += 1;
    }
    Ok(())
}

/// A table stays one when an entry is added under a new name that refers
/// only to entries of the table.
pub proof fn table_wf_push(entries: Seq<Entry>, e: Entry)
    requires
        table_wf(entries),
        e.refers_below(entries, entries.len() as int),
        forall|i: int| 0 <= i < entries.len() ==> entries[i].name() != e.name(),
    ensures
        table_wf(entries.push(e)),
{
    let after = entries.push(e);
    assert forall|i: int| 0 <= i < after.len() implies (#[trigger] after[i]).refers_below(after, i) by {
        let bound = if i < entries.len() {
            i
        } else {
            entries.len() as int
        };
        if i < entries.len() {
            assert(entries[i].refers_below(entries, i));
        }
        match after[i] {
            Entry::Proxy(q) => match q.imp {
                ProxyImpl::Chain(hops) => {
                    assert forall|j: int| 0 <= j < hops.len() implies (#[trigger] hops[j]).valid(
                        after,
                        i,
                    ) by {
                        assert(hops[j].valid(entries, bound));
                    }
                },
                _ => {},
            },
            Entry::Group(g) => {
                assert forall|j: int| 0 <= j < g.members.len() implies (#[trigger] g.members[j]).valid(
                    after,
                    i,
                ) by {
                    assert(g.members[j].valid(entries, bound));
                }
            },
        }
    }
}

/// What holds of a table holds of it with the entry of a group that it
/// settles, where the entry has a new name.
proof fn holds_after_push(src: &GroupSource, entries: Seq<Entry>, e: Entry, gi: int)
    requires
        src.wf(),
        src.holds(entries),
        0 <= gi < src.groups().len(),
        e.name() == src.groups()[gi].0,
        e.refers_below(entries, entries.len() as int),
        forall|i: int| 0 <= i < entries.len() ==> entries[i].name() != e.name(),
        src.settled(entries.push(e), gi),
    ensures
        src.holds(entries.push(e)),
        extends(entries, entries.push(e)),
{
    let after = entries.push(e);
    table_wf_push(entries, e);
    assert forall|k: int| src.base <= k < after.len() implies #[trigger] src.owned(after, k) by {
        if k < entries.len() {
            assert(src.owned(entries, k));
            let g = choose|g: int|
                0 <= g < src.groups().len() && (#[trigger] src.groups()[g]).0 == entries[k].name()
                    && src.settled(entries, g);
            settled_stays(entries, after, src.base as int, src.groups(), *src.state, src.schema@, g);
            assert(src.groups()[g].0 == after[k].name() && src.settled(after, g));
        } else {
            assert(src.groups()[gi].0 == after[k].name() && src.settled(after, gi));
        }
    }
}

/// Entries that were added off a path with one more mark were added off the
/// path.
proof fn added_off_shorter_path(
    groups: GroupEntries,
    before: Seq<Entry>,
    after: Seq<Entry>,
    on_path: Seq<bool>,
    gi: int,
)
    requires
        0 <= gi < on_path.len(),
        added_off_path(groups, before, after, on_path.update(gi, true)),
    ensures
        added_off_path(groups, before, after, on_path),
        forall|k: int| before.len() <= k < after.len() ==> (#[trigger] after[k]).name() != groups[gi].0 || exists|
            g: int,
        | 0 <= g < groups.len() && g != gi && #[trigger] groups[g].0 == groups[gi].0,
{
    let marked = on_path.update(gi, true);
    assert forall|k: int| before.len() <= k < after.len() implies names_unmarked(
        groups,
        on_path,
        (#[trigger] after[k]).name(),
    ) && (after[k].name() != groups[gi].0 || exists|g: int|
        0 <= g < groups.len() && g != gi && #[trigger] groups[g].0 == groups[gi].0) by {
        assert(names_unmarked(groups, marked, after[k].name()));
        let g = choose|g: int|
            0 <= g < groups.len() && g < marked.len() && (#[trigger] groups[g]).0 == after[k].name()
                && !marked[g];
        assert(g != gi);
        assert(!on_path[g]);
    }
}

/// What was added in two steps off a path was added off it.
proof fn added_off_path_trans(
    groups: GroupEntries,
    a: Seq<Entry>,
    b: Seq<Entry>,
    c: Seq<Entry>,
    on_path: Seq<bool>,
)
    requires
        extends(a, b),
        extends(b, c),
        added_off_path(groups, a, b, on_path),
        added_off_path(groups, b, c, on_path),
    ensures
        added_off_path(groups, a, c, on_path),
        extends(a, c),
{
    assert forall|k: int| a.len() <= k < c.len() implies names_unmarked(
        groups,
        on_path,
        (#[trigger] c[k]).name(),
    ) by {
        if k < b.len() {
            assert(c[k] == b[k]);
            assert(names_unmarked(groups, on_path, b[k].name()));
        }
    }
}

/// Resolves the name `p`, which the group at `gi` lists, to an entry of the
/// table. Where no entry has the name yet, the group of that name is built
/// first, with the group at `gi` marked as being on the path to it.
fn parse_one_proxy(
    table: &mut ProxyTable,
    src: &GroupSource,
    p: &str,
    gi: usize,
    on_path: &mut Vec<bool>,
    Ghost(path): Ghost<Seq<int>>,
) -> (r: Result<GeneralProxy, BuildError>)
    requires
        src.wf(),
        gi < src.names.len(),
        src.holds(old(table).entries@),
        path_ok(src.groups(), old(on_path)@, path),
        path.len() > 0 ==> edge(src.groups(), path.last(), gi as int),
        !old(on_path)@[gi as int],
        src.groups()[gi as int].1.direct_refs().contains(p@),
    ensures
        match r {
            Ok(g) => {
                &&& src.holds(final(table).entries@)
                &&& extends(old(table).entries@, final(table).entries@)
                &&& final(on_path)@ == old(on_path)@
                &&& refers(final(table).entries@, g, p@)
                &&& added_off_path(
                    src.groups(),
                    old(table).entries@,
                    final(table).entries@,
                    old(on_path)@.update(gi as int, true),
                )
            },
            Err(e) => src.defect(e),
        },
        walked(
            walk_ref(src.walk(), entry_names(old(table).entries@), old(on_path)@, gi as int, p@),
            r,
            final(table).entries@,
        ),
    decreases unmarked(old(on_path)@), 1int,
{
    let ghost groups = src.groups();
    let ghost refs = groups[gi as int].1.direct_refs();
    let ghost at = choose|j: int| 0 <= j < refs.len() && refs[j] == p@;
    proof {
        names_contain(table.entries@, p@);
    }
    match table.find(p) {
        Some(k) => {
            return Ok(table.reference(k));
        },
        None => {},
    }
    assert(!is_base_name(src.base_names@, p@)) by {
        if src.base_names@.contains(p@) {
            let k = choose|k: int| 0 <= k < src.base_names@.len() && src.base_names@[k] == p@;
            assert(table.entries@[k].name() == p@);
        }
    }
    match find_name(src.names, p) {
        None => {
            proof {
                assert(!is_group_name(groups, p@)) by {
                    if is_group_name(groups, p@) {
                        let i = choose|i: int| 0 <= i < groups.len() && (#[trigger] groups[i]).0 == p@;
                        assert(src.names@[i]@ == p@);
                    }
                }
                assert(group_defect(
                    BuildError::UnknownReference,
                    src.base_names@,
                    groups,
                    src.schema@,
                    gi as int,
                ));
            }
            Err(BuildError::UnknownReference)
        },
        Some(pi) => {
            let ghost before = on_path@;
            on_path.set(gi, true);
            proof {
                unmarked_after_mark(before, gi as int);
                let longer = path.push(gi as int);
                assert(edge(groups, gi as int, pi as int));
                assert(is_group_name(groups, p@));
                assert(group_named(groups, p@) == pi) by {
                    let c = group_named(groups, p@);
                    if c < pi {
                        assert(groups[c].0 != groups[pi as int].0);
                    } else if pi < c {
                        assert(groups[pi as int].0 != groups[c].0);
                    }
                }
                assert forall|x: int| 0 <= x < on_path@.len() && #[trigger] on_path@[x] implies longer.contains(
                    x,
                ) by {
                    if x == gi {
                        assert(longer[path.len() as int] == x);
                    } else {
                        assert(before[x]);
                        let t = choose|t: int| 0 <= t < path.len() && path[t] == x;
                        assert(longer[t] == x);
                    }
                }
                assert forall|i: int| 0 <= i < longer.len() - 1 implies edge(
                    groups,
                    #[trigger] longer[i],
                    longer[i + 1],
                ) by {
                    if i < path.len() - 1 {
                        assert(edge(groups, path[i], path[i + 1]));
                    }
                }
            }
            let ghost start = table.entries@;
            match parse_group(table, src, pi, on_path, true, Ghost(path.push(gi as int))) {
                Ok(()) => {},
                Err(e) => {
                    return Err(e);
                },
            }
            on_path.set(gi, false);
            assert(on_path@ =~= before);
            proof {
                names_contain(table.entries@, p@);
            }
            match table.find(p) {
                Some(k) => Ok(table.reference(k)),
                None => {
                    proof {
                        assert(src.settled(table.entries@, pi as int));
                        assert(groups[pi as int].1.is_empty(src.schema@)) by {
                            let g = groups[pi as int].1;
                            if g.chains is Some {
                                let k = choose|k: int|
                                    src.base <= k < table.entries@.len() && is_chain_of(
                                        table.entries@,
                                        #[trigger] table.entries@[k],
                                        groups[pi as int].0,
                                        g,
                                    );
                                assert(table.entries@[k].name() == p@);
                            } else if g.member_names(src.schema@).len() > 0 {
                                let k = choose|k: int|
                                    src.base <= k < table.entries@.len() && is_selection_of(
                                        table.entries@,
                                        #[trigger] table.entries@[k],
                                        groups[pi as int].0,
                                        g,
                                        *src.state,
                                        src.schema@,
                                    );
                                assert(table.entries@[k].name() == p@);
                            }
                        }
                        assert(is_empty_group_name(groups, src.schema@, p@));
                        assert(group_defect(
                            BuildError::UnknownReference,
                            src.base_names@,
                            groups,
                            src.schema@,
                            gi as int,
                        ));
                    }
                    Err(BuildError::UnknownReference)
                },
            }
        },
    }
}

/// Resolves the hops of the chain at `gi`, last first.
#[verifier::loop_isolation(false)]
fn resolve_hops(
    table: &mut ProxyTable,
    src: &GroupSource,
    gi: usize,
    chains: &Vec<String>,
    on_path: &mut Vec<bool>,
    Ghost(path): Ghost<Seq<int>>,
) -> (r: Result<Vec<GeneralProxy>, BuildError>)
    requires
        src.wf(),
        gi < src.names.len(),
        src.holds(old(table).entries@),
        path_ok(src.groups(), old(on_path)@, path),
        path.len() > 0 ==> edge(src.groups(), path.last(), gi as int),
        !old(on_path)@[gi as int],
        src.groups()[gi as int].1.chains == Some(*chains),
    ensures
        match r {
            Ok(hops) => {
                &&& src.holds(final(table).entries@)
                &&& extends(old(table).entries@, final(table).entries@)
                &&& final(on_path)@ == old(on_path)@
                &&& hops@.len() == chains@.len()
                &&& forall|j: int|
                    0 <= j < hops@.len() ==> refers(
                        final(table).entries@,
                        #[trigger] hops@[j],
                        chains@[chains@.len() - 1 - j]@,
                    )
                &&& added_off_path(
                    src.groups(),
                    old(table).entries@,
                    final(table).entries@,
                    old(on_path)@.update(gi as int, true),
                )
            },
            Err(e) => src.defect(e),
        },
        walked(
            walk_refs(
                src.walk(),
                entry_names(old(table).entries@),
                old(on_path)@,
                gi as int,
                src.groups()[gi as int].1.hop_refs(),
                0,
            ),
            r,
            final(table).entries@,
        ),
    decreases unmarked(old(on_path)@), 2int,
{
    let ghost start = table.entries@;
    let ghost marks = on_path@;
    let ghost refs = src.groups()[gi as int].1.hop_refs();
    let mut hops: Vec<GeneralProxy> = Vec::new();
    let n = chains.len();
    let mut i: usize = 0;
    while i < n
        invariant
            i <= n,
            n == chains@.len(),
            src.wf(),
            gi < src.names.len(),
            src.holds(table.entries@),
            extends(start, table.entries@),
            on_path@ == marks,
            path_ok(src.groups(), marks, path),
            path.len() > 0 ==> edge(src.groups(), path.last(), gi as int),
            !marks[gi as int],
            src.groups()[gi as int].1.chains == Some(*chains),
            hops@.len() == i,
            forall|j: int|
                0 <= j < i ==> refers(table.entries@, #[trigger] hops@[j], chains@[n - 1 - j]@),
            added_off_path(src.groups(), start, table.entries@, marks.update(gi as int, true)),
            refs.len() == n,
            walk_refs(src.walk(), entry_names(start), marks, gi as int, refs, 0) == walk_refs(
                src.walk(),
                entry_names(table.entries@),
                marks,
                gi as int,
                refs,
                i as int,
            ),
        decreases n - i,
    {
        let p = &chains[n - 1 - i];
        assert(src.groups()[gi as int].1.direct_refs()[n - 1 - i] == p@);
        assert(refs[i as int] == p@);
        let ghost before = table.entries@;
        let g = match parse_one_proxy(table, src, p.as_str(), gi, on_path, Ghost(path)) {
            Ok(g) => g,
            Err(e) => {
                return Err(e);
            },
        };
        proof {
            added_off_path_trans(src.groups(), start, before, table.entries@, marks.update(gi as int, true));
            assert forall|j: int| 0 <= j < i implies refers(
                table.entries@,
                #[trigger] hops@[j],
                chains@[n - 1 - j]@,
            ) by {
                assert(refers(before, hops@[j], chains@[n - 1 - j]@));
            }
        }
        hops.push(g);
        i += 1;
    }
    Ok(hops)
}

/// Resolves the members that the selection at `gi` lists, in order, and
/// finds the last of them that has the wanted name.
#[verifier::loop_isolation(false)]
fn resolve_listed(
    table: &mut ProxyTable,
    src: &GroupSource,
    gi: usize,
    list: &Vec<String>,
    want: Option<&String>,
    on_path: &mut Vec<bool>,
    Ghost(path): Ghost<Seq<int>>,
) -> (r: Result<(Vec<GeneralProxy>, usize), BuildError>)
    requires
        src.wf(),
        gi < src.names.len(),
        src.holds(old(table).entries@),
        path_ok(src.groups(), old(on_path)@, path),
        path.len() > 0 ==> edge(src.groups(), path.last(), gi as int),
        !old(on_path)@[gi as int],
        src.groups()[gi as int].1.chains is None,
        src.groups()[gi as int].1.proxies == Some(*list),
    ensures
        match r {
            Ok((arr, selection)) => {
                let names = text_list(Some(*list));
                &&& src.holds(final(table).entries@)
                &&& extends(old(table).entries@, final(table).entries@)
                &&& final(on_path)@ == old(on_path)@
                &&& all_refer(final(table).entries@, arr@, names)
                &&& selection == selection_index(names, wanted(want), names.len() as int)
                &&& added_off_path(
                    src.groups(),
                    old(table).entries@,
                    final(table).entries@,
                    old(on_path)@.update(gi as int, true),
                )
            },
            Err(e) => src.defect(e),
        },
        walked(
            walk_refs(
                src.walk(),
                entry_names(old(table).entries@),
                old(on_path)@,
                gi as int,
                text_list(Some(*list)),
                0,
            ),
            r,
            final(table).entries@,
        ),
    decreases unmarked(old(on_path)@), 2int,
{
    let ghost start = table.entries@;
    let ghost marks = on_path@;
    let ghost names = text_list(Some(*list));
    let mut arr: Vec<GeneralProxy> = Vec::new();
    let mut selection: usize = 0;
    let mut i: usize = 0;
    while i < list.len()
        invariant
            i <= list.len(),
            names == text_list(Some(*list)),
            src.wf(),
            gi < src.names.len(),
            src.holds(table.entries@),
            extends(start, table.entries@),
            on_path@ == marks,
            path_ok(src.groups(), marks, path),
            path.len() > 0 ==> edge(src.groups(), path.last(), gi as int),
            !marks[gi as int],
            src.groups()[gi as int].1.chains is None,
            src.groups()[gi as int].1.proxies == Some(*list),
            all_refer(table.entries@, arr@, names.take(i as int)),
            selection == selection_index(names.take(i as int), wanted(want), i as int),
            added_off_path(src.groups(), start, table.entries@, marks.update(gi as int, true)),
            walk_refs(src.walk(), entry_names(start), marks, gi as int, names, 0) == walk_refs(
                src.walk(),
                entry_names(table.entries@),
                marks,
                gi as int,
                names,
                i as int,
            ),
        decreases list.len() - i,
    {
        let p = &list[i];
        assert(src.groups()[gi as int].1.direct_refs()[i as int] == p@);
        assert(names[i as int] == p@);
        let ghost before = table.entries@;
        let g = match parse_one_proxy(table, src, p.as_str(), gi, on_path, Ghost(path)) {
            Ok(g) => g,
            Err(e) => {
                return Err(e);
            },
        };
        proof {
            added_off_path_trans(src.groups(), start, before, table.entries@, marks.update(gi as int, true));
            all_refer_stays(before, table.entries@, arr@, names.take(i as int));
            selection_index_push(names.take(i as int), p@, wanted(want));
            assert(names.take(i + 1) =~= names.take(i as int).push(p@));
        }
        if is_wanted(p.as_str(), want) {
            selection = arr.len();
        }
        arr.push(g);
        i += 1;
    }
    assert(names.take(list.len() as int) =~= names);
    Ok((arr, selection))
}

/// Adds the group at `gi` to the table, after the groups that it names.
/// A group that is already in the table is left as it is, unless
/// `dup_as_error` is set.
pub(crate) fn parse_group(
    table: &mut ProxyTable,
    src: &GroupSource,
    gi: usize,
    on_path: &mut Vec<bool>,
    dup_as_error: bool,
    Ghost(path): Ghost<Seq<int>>,
) -> (r: Result<(), BuildError>)
    requires
        src.wf(),
        gi < src.names.len(),
        src.holds(old(table).entries@),
        path_ok(src.groups(), old(on_path)@, path),
        path.len() > 0 ==> edge(src.groups(), path.last(), gi as int),
        dup_as_error ==> forall|k: int|
            0 <= k < old(table).entries@.len() ==> old(table).entries@[k].name() != src.groups()[gi as int].0,
    ensures
        match r {
            Ok(()) => {
                &&& src.holds(final(table).entries@)
                &&& extends(old(table).entries@, final(table).entries@)
                &&& final(on_path)@ == old(on_path)@
                &&& src.settled(final(table).entries@, gi as int)
                &&& added_off_path(
                    src.groups(),
                    old(table).entries@,
                    final(table).entries@,
                    old(on_path)@,
                )
            },
            Err(e) => src.defect(e),
        },
        walked(
            walk_group(
                src.walk(),
                entry_names(old(table).entries@),
                old(on_path)@,
                gi as int,
                dup_as_error,
            ),
            r,
            final(table).entries@,
        ),
    decreases unmarked(old(on_path)@), 3int,
{
    let ghost groups = src.groups();
    let ghost start = table.entries@;
    let ghost marks = on_path@;
    let name = &src.names[gi];
    if on_path[gi] {
        proof {
            let t = choose|t: int| 0 <= t < path.len() && path[t] == gi as int;
            let cycle = path.subrange(t, path.len() as int);
            assert forall|i: int| 0 <= i < cycle.len() - 1 implies edge(
                groups,
                #[trigger] cycle[i],
                cycle[i + 1],
            ) by {
                assert(edge(groups, path[t + i], path[t + i + 1]));
            }
            assert(is_cycle(groups, cycle));
        }
        return Err(BuildError::CycleDetected);
    }
    proof {
        names_contain(table.entries@, name@);
    }
    match table.find(name.as_str()) {
        Some(k) => {
            proof {
                let names = entry_names(table.entries@);
                if k < src.base {
                    assert(names.subrange(0, src.base as int)[k as int] == name@);
                } else if names.subrange(0, src.base as int).contains(name@) {
                    let c = choose|c: int|
                        0 <= c < src.base && names.subrange(0, src.base as int)[c] == name@;
                    assert(table.entries@[c].name() != table.entries@[k as int].name());
                }
            }
            if dup_as_error || k < src.base {
                proof {
                    if !dup_as_error {
                        assert(src.base_names@[k as int] == groups[gi as int].0);
                        assert(group_defect(
                            BuildError::DuplicateName,
                            src.base_names@,
                            groups,
                            src.schema@,
                            gi as int,
                        ));
                    }
                }
                return Err(BuildError::DuplicateName);
            } else {
                proof {
                    assert(src.owned(table.entries@, k as int));
                }
                return Ok(());
            }
        },
        None => {},
    }
    let cfg = match group_list_get(src.list, name.as_str()) {
        Some(c) => c,
        None => {
            assert(groups[gi as int].0 == name@);
            return Err(BuildError::InvalidGroup);
        },
    };
    proof {
        let i = choose|i: int| 0 <= i < groups.len() && #[trigger] groups[i] == (name@, *cfg);
        assert(i == gi) by {
            if i < gi {
                assert(groups[i].0 != groups[gi as int].0);
            } else if gi < i {
                assert(groups[gi as int].0 != groups[i].0);
            }
        }
        assert(groups[gi as int].1 == *cfg);
    }
    if !cfg.roughly_validate() {
        proof {
            assert(group_defect(BuildError::InvalidGroup, src.base_names@, groups, src.schema@, gi as int));
        }
        return Err(BuildError::InvalidGroup);
    }
    match &cfg.chains {
        Some(chains) => {
            let hops = match resolve_hops(table, src, gi, chains, on_path, Ghost(path)) {
                Ok(h) => h,
                Err(e) => {
                    return Err(e);
                },
            };
            let entry = Entry::Proxy(Proxy { name: name.clone(), imp: ProxyImpl::Chain(hops) });
            proof {
                let now = table.entries@;
                let after = now.push(entry);
                added_off_shorter_path(groups, start, now, marks, gi as int);
                assert forall|i: int| 0 <= i < now.len() implies now[i].name() != entry.name() by {
                    if i < start.len() {
                        assert(now[i] == start[i]);
                    } else {
                        if now[i].name() == groups[gi as int].0 {
                            let g = choose|g: int|
                                0 <= g < groups.len() && g != gi && #[trigger] groups[g].0 == groups[gi as int].0;
                            if g < gi {
                                assert(groups[g].0 != groups[gi as int].0);
                            } else {
                                assert(groups[gi as int].0 != groups[g].0);
                            }
                        }
                    }
                }
                assert(entry_names(after) =~= entry_names(now).push(name@));
                assert(is_chain_of(after, after[now.len() as int], name@, *cfg)) by {
                    assert forall|j: int| 0 <= j < hops@.len() implies refers(
                        after,
                        #[trigger] hops@[j],
                        text_list(cfg.chains)[text_list(cfg.chains).len() - 1 - j],
                    ) by {
                        assert(refers(now, hops@[j], chains@[chains@.len() - 1 - j]@));
                    }
                }
                assert(src.settled(after, gi as int));
                holds_after_push(src, now, entry, gi as int);
                assert(added_off_path(groups, start, after, marks)) by {
                    assert forall|k: int| start.len() <= k < after.len() implies names_unmarked(
                        groups,
                        marks,
                        (#[trigger] after[k]).name(),
                    ) by {
                        if k < now.len() {
                            assert(after[k] == now[k]);
                            assert(names_unmarked(groups, marks, now[k].name()));
                        } else {
                            assert(groups[gi as int].0 == after[k].name() && !marks[gi as int]);
                        }
                    }
                }
            }
            table.entries.push(entry);
            Ok(())
        },
        None => {
            let want = stored_selection(&src.state.group_selection, name.as_str());
            let mut arr: Vec<GeneralProxy> = Vec::new();
            let mut selection: usize = 0;
            match &cfg.proxies {
                Some(list) => {
                    match resolve_listed(table, src, gi, list, want, on_path, Ghost(path)) {
                        Ok((a, s)) => {
                            arr = a;
                            selection = s;
                        },
                        Err(e) => {
                            return Err(e);
                        },
                    }
                },
                None => {},
            }
            let ghost listed = text_list(cfg.proxies);
            let ghost provs = provider_list(cfg.providers);
            let ghost outcome = walk_group(
                src.walk(),
                entry_names(start),
                marks,
                gi as int,
                dup_as_error,
            );
            let ghost after_listed = entry_names(table.entries@);
            assert(listed + providers_names(src.schema@, provs, 0) =~= listed);
            assert(walk_refs(src.walk(), entry_names(start), marks, gi as int, listed, 0) == Ok::<
                Seq<Seq<char>>,
                BuildError,
            >(after_listed));
            assert(providers_error(src.schema@, provs, provs.len() as int) is Some ==> outcome == Err::<
                Seq<Seq<char>>,
                BuildError,
            >(providers_error(src.schema@, provs, provs.len() as int)->0));
            match &cfg.providers {
                Some(list) => {
                    let mut j: usize = 0;
                    while j < list.len()
                        invariant
                            j <= list.len(),
                            list@ == provs,
                            src.wf(),
                            gi < src.names.len(),
                            groups == src.groups(),
                            groups[gi as int].1 == *cfg,
                            cfg.providers == Some(*list),
                            src.holds(table.entries@),
                            all_refer(
                                table.entries@,
                                arr@,
                                listed + providers_names(src.schema@, provs, j as int),
                            ),
                            selection == selection_index(
                                listed + providers_names(src.schema@, provs, j as int),
                                wanted(want),
                                (listed + providers_names(src.schema@, provs, j as int)).len() as int,
                            ),
                            providers_error(src.schema@, provs, j as int) is None,
                            start == old(table).entries@,
                            marks == old(on_path)@,
                            outcome == walk_group(
                                src.walk(),
                                entry_names(start),
                                marks,
                                gi as int,
                                dup_as_error,
                            ),
                            providers_error(src.schema@, provs, provs.len() as int) is Some ==> outcome
                                == Err::<Seq<Seq<char>>, BuildError>(
                                providers_error(src.schema@, provs, provs.len() as int)->0,
                            ),
                        decreases list.len() - j,
                    {
                        let ghost so_far = listed + providers_names(src.schema@, provs, j as int);
                        match add_provider_members(
                            table,
                            src,
                            &list[j],
                            want,
                            &mut arr,
                            &mut selection,
                            Ghost(so_far),
                        ) {
                            Ok(()) => {},
                            Err(e) => {
                                proof {
                                    assert(provider_list(groups[gi as int].1.providers)[j as int] == list@[j as int]);
                                    assert(group_defect(e, src.base_names@, groups, src.schema@, gi as int));
                                    providers_error_stays(src.schema@, provs, j + 1, provs.len() as int);
                                }
                                return Err(e);
                            },
                        }
                        assert(listed + providers_names(src.schema@, provs, j + 1) =~= so_far + list@[j as int].names(
                            src.schema@,
                        ));
                        j += 1;
                    }
                },
                None => {},
            }
            let ghost members = cfg.member_names(src.schema@);
            assert(members == listed + providers_names(src.schema@, provs, provs.len() as int));
            if arr.len() == 0 {
                proof {
                    added_off_shorter_path(groups, start, table.entries@, marks, gi as int);
                }
                return Ok(());
            }
            proof {
                selection_index_in_range(members, wanted(want), members.len() as int);
            }
            let entry = Entry::Group(
                ProxyGroup {
                    name: name.clone(),
                    members: arr,
                    selected: selection,
                    interface: copy_text(&cfg.interface),
                },
            );
            proof {
                let now = table.entries@;
                let after = now.push(entry);
                added_off_shorter_path(groups, start, now, marks, gi as int);
                assert forall|i: int| 0 <= i < now.len() implies now[i].name() != entry.name() by {
                    if i < start.len() {
                        assert(now[i] == start[i]);
                    } else {
                        if now[i].name() == groups[gi as int].0 {
                            let g = choose|g: int|
                                0 <= g < groups.len() && g != gi && #[trigger] groups[g].0 == groups[gi as int].0;
                            if g < gi {
                                assert(groups[g].0 != groups[gi as int].0);
                            } else {
                                assert(groups[gi as int].0 != groups[g].0);
                            }
                        }
                    }
                }
                all_refer_stays(now, after, arr@, members);
                assert(entry_names(after) =~= entry_names(now).push(name@));
                assert(is_selection_of(after, after[now.len() as int], name@, *cfg, *src.state, src.schema@));
                assert(src.settled(after, gi as int));
                assert(entry.refers_below(now, now.len() as int)) by {
                    assert forall|j: int| 0 <= j < arr@.len() implies (#[trigger] arr@[j]).valid(
                        now,
                        now.len() as int,
                    ) by {
                        assert(refers(now, arr@[j], members[j]));
                    }
                }
                holds_after_push(src, now, entry, gi as int);
                assert(added_off_path(groups, start, after, marks)) by {
                    assert forall|k: int| start.len() <= k < after.len() implies names_unmarked(
                        groups,
                        marks,
                        (#[trigger] after[k]).name(),
                    ) by {
                        if k < now.len() {
                            assert(after[k] == now[k]);
                            assert(names_unmarked(groups, marks, now[k].name()));
                        } else {
                            assert(groups[gi as int].0 == after[k].name() && !marks[gi as int]);
                        }
                    }
                }
            }
            table.entries.push(entry);
            Ok(())
        },
    }
}

} // verus!
