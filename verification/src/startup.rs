//! What the program settles before it runs: where its files are, and which
//! rewrite rules are of which kind.

use crate::config::RuleProvider;
use crate::text::{ends_with, occurs_at, starts_with, utf8};
use vstd::prelude::*;
use vstd::string::StringExecFns;

verus! {

/// Why the paths could not be settled.
#[derive(Clone, Copy, Debug, PartialEq, Eq, Structural)]
pub enum PathError {
    /// No path of the configuration is given, and no home directory is
    /// known.
    NoHome,
}

/// Why the rewrite rules were refused.
#[derive(Clone, Copy, Debug, PartialEq, Eq, Structural)]
pub enum RewriteError {
    /// The rule at this place is of no known kind.
    Unexpected(usize),
}

/// Whether the path ends with a separator.
pub open spec fn ends_with_separator(path: Seq<char>) -> bool {
    occurs_at(utf8(path), utf8("/"@), utf8(path).len() - utf8("/"@).len())
}

/// The path of `name` in the directory `dir`.
pub open spec fn joined(dir: Seq<char>, name: Seq<char>) -> Seq<char> {
    if dir.len() == 0 || ends_with_separator(dir) {
        dir + name
    } else {
        dir + "/"@ + name
    }
}

/// The path of `name` in the directory `dir`.
pub fn join(dir: &str, name: &str) -> (path: String)
    ensures
        path@ == joined(dir@, name@),
{
    let mut path = dir.to_owned();
    let empty = dir.unicode_len() == 0;
    if !empty && !ends_with(dir.as_bytes(), "/".as_bytes()) {
        path.append("/");
    }
    path.append(name);
    path
}

/// The path of the file that holds the state.
pub fn state_path(config_path: &str) -> (path: String)
    ensures
        path@ == joined(config_path@, "state.yml"@),
{
    join(config_path, "state.yml")
}

/// The directory of the configuration and the directory of the
/// certificate: those given, else `.config/boltconn` in the home directory,
/// and `cert` in the directory of the configuration.
pub fn parse_config_path(config: Option<&String>, cert: Option<&String>, home: Option<&String>) -> (r:
    Result<(String, String), PathError>)
    ensures
        match r {
            Ok((config_path, cert_path)) => {
                &&& config_path@ == match config {
                    Some(p) => p@,
                    None => joined(joined(home->0@, ".config"@), "boltconn"@),
                }
                &&& cert_path@ == match cert {
                    Some(p) => p@,
                    None => joined(config_path@, "cert"@),
                }
                &&& config is Some || home is Some
            },
            Err(e) => e == PathError::NoHome && config is None && home is None,
        },
{
    let config_path = match config {
        Some(p) => p.clone(),
        None => match home {
            Some(h) => {
                let dir = join(h.as_str(), ".config");
                join(dir.as_str(), "boltconn")
            },
            None => {
                return Err(PathError::NoHome);
            },
        },
    };
    let cert_path = match cert {
        Some(p) => p.clone(),
        None => join(config_path.as_str(), "cert"),
    };
    Ok((config_path, cert_path))
}

/// Where the rules of a provider are read from.
#[derive(Debug)]
pub enum SchemaSource {
    /// From the file at this path, below the directory of the
    /// configuration.
    Local(String),
    /// From this URL; what is fetched is also written to the file at this
    /// path.
    Download { url: String, path: String },
}

/// Where the rules of a provider are read from: a provider that is fetched
/// over HTTP is read from its file where that exists, unless an update is
/// forced.
pub fn read_rule_schema(provider: &RuleProvider, force_update: bool, file_exists: bool) -> (r: SchemaSource)
    ensures
        match *provider {
            RuleProvider::File { path } => r == SchemaSource::Local(path),
            RuleProvider::Http { url, path, .. } => if !force_update && file_exists {
                r == SchemaSource::Local(path)
            } else {
                r == (SchemaSource::Download { url, path })
            },
        },
{
    match provider {
        RuleProvider::File { path } => SchemaSource::Local(path.clone()),
        RuleProvider::Http { url, path, .. } => {
            if !force_update && file_exists {
                SchemaSource::Local(path.clone())
            } else {
                SchemaSource::Download { url: url.clone(), path: path.clone() }
            }
        },
    }
}

/// The kinds of rewrite rule.
#[derive(Clone, Copy, Debug, PartialEq, Eq, Structural)]
pub enum RewriteKind {
    Url,
    Header,
}

/// The kind of a rewrite rule, by how it begins.
pub open spec fn rewrite_kind(rule: Seq<char>) -> Option<RewriteKind> {
    if occurs_at(utf8(rule), utf8("url,"@), 0) {
        Some(RewriteKind::Url)
    } else if occurs_at(utf8(rule), utf8("header-req,"@), 0) || occurs_at(
        utf8(rule),
        utf8("header-resp,"@),
        0,
    ) {
        Some(RewriteKind::Header)
    } else {
        None
    }
}

/// The kind of a rewrite rule.
pub fn kind_of_rewrite(rule: &str) -> (r: Option<RewriteKind>)
    ensures
        r == rewrite_kind(rule@),
{
    let b = rule.as_bytes();
    if starts_with(b, "url,".as_bytes()) {
        Some(RewriteKind::Url)
    } else if starts_with(b, "header-req,".as_bytes()) || starts_with(b, "header-resp,".as_bytes()) {
        Some(RewriteKind::Header)
    } else {
        None
    }
}

/// The rules of the kind among the first `n`, in order.
pub open spec fn of_kind(list: Seq<String>, kind: RewriteKind, n: int) -> Seq<String>
    decreases n,
{
    if n <= 0 {
        Seq::empty()
    } else if rewrite_kind(list[n - 1]@) == Some(kind) {
        of_kind(list, kind, n - 1).push(list[n - 1])
    } else {
        of_kind(list, kind, n - 1)
    }
}

/// Sorts the rewrite rules into those on the URL and those on the headers.
/// A rule of no known kind refuses the list.
pub fn mapping_rewrite(list: &[String]) -> (r: Result<(Vec<String>, Vec<String>), RewriteError>)
    ensures
        match r {
            Ok((url_list, header_list)) => {
                &&& forall|i: int| 0 <= i < list@.len() ==> rewrite_kind((#[trigger] list@[i])@) is Some
                &&& url_list@ == of_kind(list@, RewriteKind::Url, list@.len() as int)
                &&& header_list@ == of_kind(list@, RewriteKind::Header, list@.len() as int)
            },
            Err(RewriteError::Unexpected(i)) => {
                &&& i < list@.len()
                &&& rewrite_kind(list@[i as int]@) is None
                &&& forall|j: int| 0 <= j < i ==> rewrite_kind((#[trigger] list@[j])@) is Some
            },
        },
{
    let mut url_list: Vec<String> = Vec::new();
    let mut header_list: Vec<String> = Vec::new();
    let mut i: usize = 0;
    while i < list.len()
        invariant
            i <= list@.len(),
            forall|j: int| 0 <= j < i ==> rewrite_kind((#[trigger] list@[j])@) is Some,
            url_list@ == of_kind(list@, RewriteKind::Url, i as int),
            header_list@ == of_kind(list@, RewriteKind::Header, i as int),
        decreases list@.len() - i,
    {
        match kind_of_rewrite(list[i].as_str()) {
            Some(RewriteKind::Url) => {
                url_list.push(list[i].clone());
            },
            Some(RewriteKind::Header) => {
                header_list.push(list[i].clone());
            },
            None => {
                return Err(RewriteError::Unexpected(i));
            },
        }
        i += 1;
    }
    Ok((url_list, header_list))
}

} // verus!
