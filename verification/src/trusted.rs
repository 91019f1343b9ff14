//! What this library takes on trust from the crates it calls.

use crate::config::RawProxyGroupCfg;
use crate::http_inbound::{Header, RequestHead, RequestHeadView};
use crate::smol::ConnTask;
use base64::Engine;
use dashmap::DashMap;
use linked_hash_map::LinkedHashMap;
use regex::Regex;
use vstd::prelude::*;

verus! {

/// `linked_hash_map::LinkedHashMap`. Nothing is known of what a map holds
/// but what `group_entries` says of it.
#[verifier::external_type_specification]
#[verifier::external_body]
#[verifier::reject_recursive_types(K)]
#[verifier::reject_recursive_types(V)]
#[verifier::reject_recursive_types(S)]
pub struct ExLinkedHashMap<K, V, S>(LinkedHashMap<K, V, S>);

/// `regex::Regex`. Nothing is known of a compiled expression but the pattern
/// that it was compiled from, which `regex_source` names.
#[verifier::external_type_specification]
#[verifier::external_body]
pub struct ExRegex(Regex);

/// `dashmap::DashMap`. Nothing is known of what a map holds but what `tasks`
/// says of it.
#[verifier::external_type_specification]
#[verifier::external_body]
#[verifier::reject_recursive_types(K)]
#[verifier::reject_recursive_types(V)]
#[verifier::reject_recursive_types(S)]
pub struct ExDashMap<K, V, S>(DashMap<K, V, S>);

/// The entries of a group list, in the order of the list.
pub uninterp spec fn group_entries(list: LinkedHashMap<String, RawProxyGroupCfg>) -> Seq<
    (Seq<char>, RawProxyGroupCfg),
>;

/// The tasks that a map holds, by their port.
pub uninterp spec fn tasks(map: DashMap<u16, ConnTask>) -> Map<u16, ConnTask>;

/// The bytes that a text in standard base64, with padding, stands for, if it
/// is such a text: what the standard engine's `decode` gives.
pub uninterp spec fn base64_decoded(input: Seq<u8>) -> Option<Seq<u8>>;

/// What is found in the head of a request that is parsed with room for
/// `slots` headers: the method, the path, the minor version and the headers,
/// as far as they were read; or nothing where the request is refused.
pub uninterp spec fn parsed_request(buf: Seq<u8>, slots: nat) -> Option<RequestHeadView>;

/// Whether a pattern is a regular expression that `Regex::new` compiles.
pub uninterp spec fn regex_valid(pattern: Seq<char>) -> bool;

/// The pattern that a regular expression was compiled from: what
/// `Regex::as_str` gives.
pub uninterp spec fn regex_source(re: Regex) -> Seq<char>;

/// Whether the regular expression of a pattern matches somewhere in a text:
/// what `Regex::is_match` gives.
pub uninterp spec fn regex_matches(pattern: Seq<char>, text: Seq<char>) -> bool;

/// `LinkedHashMap::keys`, each key cloned: the keys in the order of the
/// entries. No key occurs twice in a map.
#[verifier::external_body]
pub(crate) fn group_list_names(list: &LinkedHashMap<String, RawProxyGroupCfg>) -> (names: Vec<String>)
    ensures
        names.len() == group_entries(*list).len(),
        forall|i: int| 0 <= i < names.len() ==> (#[trigger] names[i])@ == group_entries(*list)[i].0,
        forall|i: int, j: int|
            0 <= i < j < names.len() ==> (#[trigger] names[i])@ != (#[trigger] names[j])@,
{
    list.keys().cloned().collect()
}

/// `DashMap::new`: a map that holds nothing.
#[verifier::external_body]
pub(crate) fn tasks_new() -> (made: DashMap<u16, ConnTask>)
    ensures
        tasks(made) == (Map::<u16, ConnTask>::empty()),
{
    DashMap::new()
}

/// `DashMap::contains_key`: whether the map holds a task for the port.
#[verifier::external_body]
pub(crate) fn tasks_contains(map: &DashMap<u16, ConnTask>, port: u16) -> (b: bool)
    ensures
        b == tasks(*map).dom().contains(port),
{
    map.contains_key(&port)
}

/// `DashMap::insert`: the map then holds the task for the port, in place of
/// the one that it held for it, and all else as before.
#[verifier::external_body]
pub(crate) fn tasks_insert(map: &mut DashMap<u16, ConnTask>, port: u16, task: ConnTask)
    ensures
        tasks(*final(map)) == tasks(*old(map)).insert(port, task),
{
    map.insert(port, task);
}

/// `DashMap::remove`: the task that the map held for the port, if it held
/// one; the map then holds none for it, and all else as before.
#[verifier::external_body]
pub(crate) fn tasks_remove(map: &mut DashMap<u16, ConnTask>, port: u16) -> (r: Option<ConnTask>)
    ensures
        tasks(*final(map)) == tasks(*old(map)).remove(port),
        r == if tasks(*old(map)).dom().contains(port) {
            Some(tasks(*old(map))[port])
        } else {
            None
        },
{
    map.remove(&port).map(|entry| entry.1)
}

/// `DashMap::iter`, of each entry the key: the ports that the map holds
/// tasks for, each once, in no order that could be told.
#[verifier::external_body]
pub(crate) fn tasks_ports(map: &DashMap<u16, ConnTask>) -> (ports: Vec<u16>)
    ensures
        forall|p: u16| ports@.contains(p) <==> #[trigger] tasks(*map).dom().contains(p),
        forall|a: int, b: int| 0 <= a < b < ports@.len() ==> ports@[a] != ports@[b],
{
    map.iter().map(|entry| *entry.key()).collect()
}

/// `String::from_utf8`: the text that the bytes encode, or nothing where
/// they are not UTF-8.
#[verifier::external_body]
pub(crate) fn string_from_utf8(bytes: Vec<u8>) -> (r: Option<String>)
    ensures
        r is Some == vstd::utf8::valid_utf8(bytes@),
        r matches Some(s) ==> vstd::utf8::encode_utf8(s@) == bytes@,
{
    String::from_utf8(bytes).ok()
}

/// `Engine::decode` of `base64::engine::general_purpose::STANDARD`: the
/// bytes that the input stands for, or nothing where the input is not
/// standard base64.
#[verifier::external_body]
pub(crate) fn base64_decode(input: &[u8]) -> (r: Option<Vec<u8>>)
    ensures
        match r {
            Some(v) => base64_decoded(input@) == Some(v@),
            None => base64_decoded(input@) is None,
        },
{
    base64::engine::general_purpose::STANDARD.decode(input).ok()
}

/// `httparse::Request::parse` on a request with `slots` empty headers: what
/// it leaves in the request, or nothing where it returns an error. The
/// number of headers is kept small, so that room for them can be had.
#[verifier::external_body]
pub(crate) fn parse_request(buf: &[u8], slots: usize) -> (r: Option<RequestHead>)
    requires
        slots <= 4096,
    ensures
        match r {
            Some(head) => parsed_request(buf@, slots as nat) == Some(head@),
            None => parsed_request(buf@, slots as nat) is None,
        },
{
    let mut slots = vec![httparse::EMPTY_HEADER; slots];
    let mut req = httparse::Request::new(&mut slots);
    req.parse(buf).ok()?;
    let header = |h: &httparse::Header| Header { name: h.name.to_string(), value: h.value.to_vec() };
    Some(RequestHead {
        method: req.method.map(str::to_string),
        path: req.path.map(str::to_string),
        version: req.version,
        headers: req.headers.iter().map(header).collect(),
    })
}

/// `Regex::new`: the compiled expression, which keeps its pattern, or
/// nothing where the pattern cannot be compiled.
#[verifier::external_body]
pub(crate) fn regex_new(pattern: &str) -> (r: Option<Regex>)
    ensures
        r is Some == regex_valid(pattern@),
        r matches Some(re) ==> regex_source(re) == pattern@,
{
    Regex::new(pattern).ok()
}

/// `Regex::is_match`: whether the expression matches somewhere in the text.
#[verifier::external_body]
pub(crate) fn regex_is_match(re: &Regex, text: &str) -> (b: bool)
    ensures
        b == regex_matches(regex_source(*re), text@),
{
    re.is_match(text)
}

/// `LinkedHashMap::get`: the value of the entry with the key `name`, if
/// there is one.
#[verifier::external_body]
pub(crate) fn group_list_get<'a>(
    list: &'a LinkedHashMap<String, RawProxyGroupCfg>,
    name: &str,
) -> (r: Option<&'a RawProxyGroupCfg>)
    ensures
        match r {
            Some(g) => exists|i: int|
                0 <= i < group_entries(*list).len() && #[trigger] group_entries(*list)[i] == (name@, *g),
            None => forall|i: int|
                0 <= i < group_entries(*list).len() ==> (#[trigger] group_entries(*list)[i]).0 != name@,
        },
{
    list.get(name)
}

} // verus!
